//! A directed graph and its text in the DOT language.

use vstd::prelude::*;

use crate::text::joined;
use crate::text::push_text;
use crate::text::views;

verus! {

/// A node of a graph.
#[derive(Debug, PartialEq, Eq)]
pub struct Node {
    pub id: String,
    pub label: String,
}

/// The mathematical value of a [`Node`].
pub struct NodeView {
    pub id: Seq<char>,
    pub label: Seq<char>,
}

impl NodeView {
    /// The text of the node: its id, then its label in brackets.
    pub open spec fn text(self) -> Seq<char> {
        self.id + " [label=\""@ + self.label + "\"];"@
    }
}

impl View for Node {
    type V = NodeView;

    open spec fn view(&self) -> NodeView {
        NodeView { id: self.id@, label: self.label@ }
    }
}

impl Node {
    /// The text of the node.
    pub fn to_string(&self) -> (text: String)
        ensures
            text@ == self@.text(),
    {
        let mut text = self.id.clone();
        push_text(&mut text, " [label=\"");
        push_text(&mut text, self.label.as_str());
        push_text(&mut text, "\"];");
        text
    }
}

/// An edge of a graph, from one node's id to another's.
#[derive(Debug, PartialEq, Eq)]
pub struct Edge {
    pub source: String,
    pub destination: String,
}

/// The mathematical value of an [`Edge`].
pub struct EdgeView {
    pub source: Seq<char>,
    pub destination: Seq<char>,
}

impl EdgeView {
    /// The text of the edge: an arrow from its source to its destination.
    pub open spec fn text(self) -> Seq<char> {
        self.source + " -> "@ + self.destination + ";"@
    }
}

impl View for Edge {
    type V = EdgeView;

    open spec fn view(&self) -> EdgeView {
        EdgeView { source: self.source@, destination: self.destination@ }
    }
}

impl Edge {
    /// The text of the edge.
    pub fn to_string(&self) -> (text: String)
        ensures
            text@ == self@.text(),
    {
        let mut text = self.source.clone();
        push_text(&mut text, " -> ");
        push_text(&mut text, self.destination.as_str());
        push_text(&mut text, ";");
        text
    }
}

/// A directed graph with a title.
#[derive(Debug, PartialEq, Eq)]
pub struct Digraph {
    pub title: String,
    pub nodes: Vec<Node>,
    pub edges: Vec<Edge>,
}

/// The mathematical value of a [`Digraph`].
pub struct DigraphView {
    pub title: Seq<char>,
    pub nodes: Seq<NodeView>,
    pub edges: Seq<EdgeView>,
}

/// The lines of the nodes, each after a tab.
pub open spec fn node_lines(nodes: Seq<NodeView>) -> Seq<Seq<char>> {
    Seq::new(nodes.len(), |i: int| "\t"@ + nodes[i].text())
}

/// The lines of the edges, each after a tab.
pub open spec fn edge_lines(edges: Seq<EdgeView>) -> Seq<Seq<char>> {
    Seq::new(edges.len(), |i: int| "\t"@ + edges[i].text())
}

impl DigraphView {
    /// The text of the graph: the title, then between braces the nodes, one per line, and
    /// the edges, one per line.
    pub open spec fn text(self) -> Seq<char> {
        "digraph \""@ + self.title + "\" {\n"@ + joined(node_lines(self.nodes), "\n"@) + "\n"@
            + joined(edge_lines(self.edges), "\n"@) + "\n}"@
    }
}

impl View for Digraph {
    type V = DigraphView;

    open spec fn view(&self) -> DigraphView {
        DigraphView { title: self.title@, nodes: views(self.nodes@), edges: views(self.edges@) }
    }
}

impl Digraph {
    /// A graph without nodes or edges.
    pub fn new(title: &str) -> (graph: Self)
        ensures
            graph@ == (DigraphView { title: title@, nodes: seq![], edges: seq![] }),
    {
        let graph = Self { title: title.to_owned(), nodes: Vec::new(), edges: Vec::new() };
        assert(views(graph.nodes@) =~= Seq::<NodeView>::empty());
        assert(views(graph.edges@) =~= Seq::<EdgeView>::empty());
        graph
    }

    /// The text of the graph in the DOT language.
    pub fn to_string(&self) -> (text: String)
        ensures
            text@ == self@.text(),
    {
        let mut text = "digraph \"".to_owned();
        push_text(&mut text, self.title.as_str());
        push_text(&mut text, "\" {\n");
        let ghost head = text@;
        let ghost lines = node_lines(self@.nodes);
        let mut index: usize = 0;
        assert(lines.take(0) =~= Seq::<Seq<char>>::empty());
        assert(text@ =~= head + joined(lines.take(0), "\n"@));
        while index < self.nodes.len()
            invariant
                index <= self.nodes@.len(),
                lines == node_lines(self@.nodes),
                text@ == head + joined(lines.take(index as int), "\n"@),
            decreases self.nodes@.len() - index,
        {
            let ghost before = lines.take(index as int);
            let ghost after = lines.take(index + 1);
            if index > 0 {
                push_text(&mut text, "\n");
            }
            push_text(&mut text, "\t");
            push_text(&mut text, self.nodes[index].to_string().as_str());
            proof {
                assert(after.drop_last() =~= before);
                assert(after.last() == "\t"@ + self.nodes@[index as int]@.text());
                assert(text@ =~= head + joined(after, "\n"@));
            }
            index = index + 1;
        }
        assert(lines.take(index as int) =~= lines);
        push_text(&mut text, "\n");
        let ghost head = text@;
        let ghost lines = edge_lines(self@.edges);
        let mut index: usize = 0;
        assert(lines.take(0) =~= Seq::<Seq<char>>::empty());
        assert(text@ =~= head + joined(lines.take(0), "\n"@));
        while index < self.edges.len()
            invariant
                index <= self.edges@.len(),
                lines == edge_lines(self@.edges),
                text@ == head + joined(lines.take(index as int), "\n"@),
            decreases self.edges@.len() - index,
        {
            let ghost before = lines.take(index as int);
            let ghost after = lines.take(index + 1);
            if index > 0 {
                push_text(&mut text, "\n");
            }
            push_text(&mut text, "\t");
            push_text(&mut text, self.edges[index].to_string().as_str());
            proof {
                assert(after.drop_last() =~= before);
                assert(after.last() == "\t"@ + self.edges@[index as int]@.text());
                assert(text@ =~= head + joined(after, "\n"@));
            }
            index = index + 1;
        }
        assert(lines.take(index as int) =~= lines);
        push_text(&mut text, "\n}");
        text
    }
}

} // verus!
