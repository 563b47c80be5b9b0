//! A builder for plain-text directed-graph descriptions.
//!
//! The builder collects one declaration line per node and per edge and
//! renders them, with a left-to-right layout hint, into one output string;
//! it holds no graph state of its own and runs no graph algorithm.  Every
//! rendering step is specified exactly, down to the decimal form of the
//! keys.
use vstd::prelude::*;
use vstd::string::StringExecFns;

verus! {

/// The decimal digits of `n`, most significant first.
pub open spec fn dec_spec(n: u64) -> Seq<char>
    decreases n,
{
    if n < 10 {
        seq![digit(n)]
    } else {
        dec_spec(n / 10).push(digit(n % 10))
    }
}

/// The character of one decimal digit.
pub open spec fn digit(d: u64) -> char {
    if d == 0 {
        '0'
    } else if d == 1 {
        '1'
    } else if d == 2 {
        '2'
    } else if d == 3 {
        '3'
    } else if d == 4 {
        '4'
    } else if d == 5 {
        '5'
    } else if d == 6 {
        '6'
    } else if d == 7 {
        '7'
    } else if d == 8 {
        '8'
    } else {
        '9'
    }
}

/// Append the decimal digit `d` to `s`.
fn push_digit(s: &mut String, d: u64)
    requires
        d < 10,
    ensures
        final(s)@ == old(s)@.push(digit(d)),
{
    if d == 0 {
        s.append("0");
        proof {
            reveal_strlit("0");
            assert(s@ =~= old(s)@.push(digit(d)));
        }
    } else if d == 1 {
        s.append("1");
        proof {
            reveal_strlit("1");
            assert(s@ =~= old(s)@.push(digit(d)));
        }
    } else if d == 2 {
        s.append("2");
        proof {
            reveal_strlit("2");
            assert(s@ =~= old(s)@.push(digit(d)));
        }
    } else if d == 3 {
        s.append("3");
        proof {
            reveal_strlit("3");
            assert(s@ =~= old(s)@.push(digit(d)));
        }
    } else if d == 4 {
        s.append("4");
        proof {
            reveal_strlit("4");
            assert(s@ =~= old(s)@.push(digit(d)));
        }
    } else if d == 5 {
        s.append("5");
        proof {
            reveal_strlit("5");
            assert(s@ =~= old(s)@.push(digit(d)));
        }
    } else if d == 6 {
        s.append("6");
        proof {
            reveal_strlit("6");
            assert(s@ =~= old(s)@.push(digit(d)));
        }
    } else if d == 7 {
        s.append("7");
        proof {
            reveal_strlit("7");
            assert(s@ =~= old(s)@.push(digit(d)));
        }
    } else if d == 8 {
        s.append("8");
        proof {
            reveal_strlit("8");
            assert(s@ =~= old(s)@.push(digit(d)));
        }
    } else {
        s.append("9");
        proof {
            reveal_strlit("9");
            assert(s@ =~= old(s)@.push(digit(d)));
        }
    }
}

/// Append the decimal form of `n` to `s`.
pub(crate) fn append_u64(s: &mut String, n: u64)
    ensures
        final(s)@ == old(s)@ + dec_spec(n),
    decreases n,
{
    if n < 10 {
        push_digit(s, n);
        proof {
            assert(s@ =~= old(s)@ + dec_spec(n));
        }
    } else {
        append_u64(s, n / 10);
        push_digit(s, n % 10);
        proof {
            assert(s@ =~= old(s)@ + dec_spec(n));
        }
    }
}

/// One attribute value: rendered bare for an identifier, quoted for free
/// text.
#[derive(Debug)]
pub enum DotAttribute {
    Ident(String),
    String(String),
}

/// The rendered form of one attribute value.
pub open spec fn attr_text(a: DotAttribute) -> Seq<char> {
    match a {
        DotAttribute::Ident(id) => id@,
        DotAttribute::String(s) => "\""@ + s@ + "\""@,
    }
}

/// The rendered form of one `key=value` attribute pair.
pub open spec fn attr_pair_text(p: (String, DotAttribute)) -> Seq<char> {
    p.0@ + "="@ + attr_text(p.1)
}

/// The rendered form of an attribute list: the pairs joined by `"; "`.
pub open spec fn attrs_text(attrs: Seq<(String, DotAttribute)>) -> Seq<char>
    decreases attrs.len(),
{
    if attrs.len() == 0 {
        Seq::empty()
    } else if attrs.len() == 1 {
        attr_pair_text(attrs[0])
    } else {
        attrs_text(attrs.drop_last()) + "; "@ + attr_pair_text(attrs.last())
    }
}

/// The declaration line of one node: its key quoted, then its attributes.
pub open spec fn node_line_text(id: u64, attrs: Seq<(String, DotAttribute)>) -> Seq<char> {
    "  \""@ + dec_spec(id) + "\" ["@ + attrs_text(attrs) + "];"@
}

/// The declaration line of one attributed edge.
pub open spec fn edge_line_text(from: u64, to: u64, attrs: Seq<(String, DotAttribute)>) -> Seq<
    char,
> {
    "  \""@ + dec_spec(from) + "\" -> \""@ + dec_spec(to) + "\" ["@ + attrs_text(attrs) + "];"@
}

/// The declaration line of one bare edge.
pub open spec fn edge_line_simple_text(from: u64, to: u64) -> Seq<char> {
    "  \""@ + dec_spec(from) + "\" -> \""@ + dec_spec(to) + "\";"@
}

/// The collected lines, each followed by a line break.
pub open spec fn join_lines(lines: Seq<Seq<char>>) -> Seq<char>
    decreases lines.len(),
{
    if lines.len() == 0 {
        Seq::empty()
    } else {
        join_lines(lines.drop_last()) + lines.last() + "\n"@
    }
}

/// The whole output: header with the graph's name and the layout hint, the
/// node lines, a separating break, the edge lines, and the closing brace.
pub open spec fn dot_text(
    name: Option<Seq<char>>,
    node_lines: Seq<Seq<char>>,
    edge_lines: Seq<Seq<char>>,
) -> Seq<char> {
    "digraph "@ + (match name {
        Some(n) => n,
        None => "G"@,
    }) + " {\n"@ + "  rankdir=LR;\n"@ + "\n"@ + join_lines(node_lines) + "\n"@ + join_lines(
        edge_lines,
    ) + "}"@
}

/// The declaration line the store's own export writes for one node: the
/// bare key, then the payload as its label.
pub open spec fn graph_node_line(key: u64, payload: Seq<char>) -> Seq<char> {
    "  "@ + dec_spec(key) + " [label=\""@ + payload + "\"];\n"@
}

/// The node declaration lines of the store's own export, one per pair, in
/// the order of the enumeration.
pub open spec fn graph_node_section(ns: Seq<(u64, Seq<char>)>) -> Seq<char>
    decreases ns.len(),
{
    if ns.len() == 0 {
        Seq::empty()
    } else {
        graph_node_section(ns.drop_last()) + graph_node_line(ns.last().0, ns.last().1)
    }
}

/// The declaration line the store's own export writes for one edge.
pub open spec fn graph_edge_line(from: u64, to: u64) -> Seq<char> {
    "  "@ + dec_spec(from) + " -> "@ + dec_spec(to) + ";\n"@
}

/// The edge lines of one source key, one per outgoing adjacency entry, in
/// order.
pub open spec fn graph_edge_lines_for(key: u64, list: Seq<(u64, u64)>) -> Seq<char>
    decreases list.len(),
{
    if list.len() == 0 {
        Seq::empty()
    } else {
        graph_edge_lines_for(key, list.drop_last()) + graph_edge_line(key, list.last().1)
    }
}

/// The edge declaration lines of the store's own export, grouped by source
/// key in the order of the enumeration.
pub open spec fn graph_edge_section(es: Seq<(u64, Seq<(u64, u64)>)>) -> Seq<char>
    decreases es.len(),
{
    if es.len() == 0 {
        Seq::empty()
    } else {
        graph_edge_section(es.drop_last()) + graph_edge_lines_for(es.last().0, es.last().1)
    }
}

/// The whole output of the store's own export, given an enumeration of its
/// nodes and one of its outgoing index.
pub open spec fn graph_dot_text(ns: Seq<(u64, Seq<char>)>, es: Seq<(u64, Seq<(u64, u64)>)>) -> Seq<
    char,
> {
    "digraph G {\n"@ + "  rankdir=LR;\n"@ + "\n"@ + graph_node_section(ns) + "\n"@
        + graph_edge_section(es) + "\n}"@
}

impl DotAttribute {
    /// A `label` attribute carrying the given text, quoted.
    pub fn label(label: String) -> (r: (String, DotAttribute))
        ensures
            r.0@ == "label"@,
            r.1 == (DotAttribute::String(label)),
    {
        (String::from_str("label"), DotAttribute::String(label))
    }

    /// A `color` attribute carrying the given color name, bare.
    pub fn color(color: String) -> (r: (String, DotAttribute))
        ensures
            r.0@ == "color"@,
            r.1 == (DotAttribute::Ident(color)),
    {
        (String::from_str("color"), DotAttribute::Ident(color))
    }
}

/// Something that renders itself as a plain-text directed-graph
/// description.
pub trait ToDot {
    /// The rendered description.
    spec fn dot_spec(&self) -> Seq<char>;

    /// Render the description.
    fn to_dot(&self) -> (r: String)
        ensures
            r@ == self.dot_spec(),
    ;
}

/// Collects node and edge declaration lines and renders them in insertion
/// order.
#[derive(Debug)]
pub struct DotBuilder {
    pub(crate) name: Option<String>,
    pub(crate) nodes: Vec<(u64, String)>,
    pub(crate) edges: Vec<String>,
}

impl DotBuilder {
    /// The graph name of the output header, if one was given.
    pub open(crate) spec fn name_view(self) -> Option<Seq<char>> {
        match self.name {
            Some(n) => Some(n@),
            None => None,
        }
    }

    /// The declared nodes: each key with its finished declaration line.
    pub open(crate) spec fn node_lines(self) -> Seq<(u64, Seq<char>)> {
        crate::model::pairs_view(self.nodes@)
    }

    /// The finished node declaration lines alone, in insertion order.
    pub open(crate) spec fn stored_node_lines(self) -> Seq<Seq<char>> {
        self.nodes@.map_values(|p: (u64, String)| p.1@)
    }

    /// The finished edge declaration lines, in insertion order.
    pub open(crate) spec fn edge_lines(self) -> Seq<Seq<char>> {
        self.edges@.map_values(|s: String| s@)
    }

    /// A builder for a graph with the given name.
    pub fn new(name: String) -> (r: DotBuilder)
        ensures
            r.name_view() == Some(name@),
            r.node_lines() == Seq::<(u64, Seq<char>)>::empty(),
            r.edge_lines() == Seq::<Seq<char>>::empty(),
    {
        let r = DotBuilder { name: Some(name), nodes: Vec::new(), edges: Vec::new() };
        proof {
            assert(r.node_lines() =~= Seq::<(u64, Seq<char>)>::empty());
            assert(r.edge_lines() =~= Seq::<Seq<char>>::empty());
        }
        r
    }

    /// Declare the node `id` with the given attributes.  A key already
    /// declared is left as it was: the first declaration wins.
    pub fn add_node(&mut self, id: u64, attributes: Vec<(String, DotAttribute)>)
        ensures
            final(self).name_view() == old(self).name_view(),
            final(self).edge_lines() == old(self).edge_lines(),
            if crate::model::keyset(old(self).node_lines()).contains(id) {
                final(self).node_lines() == old(self).node_lines()
            } else {
                final(self).node_lines() == old(self).node_lines().push(
                    (id, node_line_text(id, attributes@)),
                )
            },
    {
        let mut i: usize = 0;
        while i < self.nodes.len()
            invariant
                0 <= i <= self.nodes@.len(),
                forall|t: int| 0 <= t < i ==> (#[trigger] self.nodes@[t]).0 != id,
                *self == *old(self),
            decreases self.nodes@.len() - i,
        {
            if self.nodes[i].0 == id {
                proof {
                    assert(crate::model::pairs_view(self.nodes@)[i as int].0 == id);
                    assert(crate::model::keyset(old(self).node_lines()).contains(id));
                }
                return ;
            }
            i += 1;
        }
        proof {
            assert(!crate::model::keyset(old(self).node_lines()).contains(id)) by {
                if crate::model::keyset(old(self).node_lines()).contains(id) {
                    let t = choose|t: int|
                        0 <= t < old(self).node_lines().len() && (#[trigger] old(
                            self,
                        ).node_lines()[t]).0 == id;
                    assert(self.nodes@[t].0 == id);
                }
            }
        }
        let mut line = String::new();
        line.append("  \"");
        append_u64(&mut line, id);
        line.append("\" [");
        let attrs = attrs_as_string(&attributes);
        line.append(attrs.as_str());
        line.append("];");
        proof {
            assert(line@ =~= node_line_text(id, attributes@));
        }
        self.nodes.push((id, line));
        proof {
            assert(final(self).node_lines() =~= old(self).node_lines().push(
                (id, node_line_text(id, attributes@)),
            ));
        }
    }

    /// Declare an edge from `from` to `to` with the given attributes.
    pub fn add_edge(&mut self, from: u64, to: u64, attributes: Vec<(String, DotAttribute)>)
        ensures
            final(self).name_view() == old(self).name_view(),
            final(self).node_lines() == old(self).node_lines(),
            final(self).edge_lines() == old(self).edge_lines().push(
                edge_line_text(from, to, attributes@),
            ),
    {
        let mut line = String::new();
        line.append("  \"");
        append_u64(&mut line, from);
        line.append("\" -> \"");
        append_u64(&mut line, to);
        line.append("\" [");
        let attrs = attrs_as_string(&attributes);
        line.append(attrs.as_str());
        line.append("];");
        proof {
            assert(line@ =~= edge_line_text(from, to, attributes@));
        }
        self.edges.push(line);
        proof {
            assert(final(self).edge_lines() =~= old(self).edge_lines().push(
                edge_line_text(from, to, attributes@),
            ));
            assert(final(self).node_lines() =~= old(self).node_lines());
        }
    }

    /// Declare a bare edge from `from` to `to`.
    pub fn add_edge_simple(&mut self, from: u64, to: u64)
        ensures
            final(self).name_view() == old(self).name_view(),
            final(self).node_lines() == old(self).node_lines(),
            final(self).edge_lines() == old(self).edge_lines().push(
                edge_line_simple_text(from, to),
            ),
    {
        let mut line = String::new();
        line.append("  \"");
        append_u64(&mut line, from);
        line.append("\" -> \"");
        append_u64(&mut line, to);
        line.append("\";");
        proof {
            assert(line@ =~= edge_line_simple_text(from, to));
        }
        self.edges.push(line);
        proof {
            assert(final(self).edge_lines() =~= old(self).edge_lines().push(
                edge_line_simple_text(from, to),
            ));
            assert(final(self).node_lines() =~= old(self).node_lines());
        }
    }

    /// Render the collected lines into the output text.
    pub fn write(&self) -> (r: String)
        ensures
            r@ == dot_text(self.name_view(), self.stored_node_lines(), self.edge_lines()),
    {
        let mut s = String::new();
        s.append("digraph ");
        match &self.name {
            Some(n) => s.append(n.as_str()),
            None => s.append("G"),
        }
        s.append(" {\n");
        s.append("  rankdir=LR;\n");
        s.append("\n");
        let ghost header = s@;
        let mut i: usize = 0;
        while i < self.nodes.len()
            invariant
                0 <= i <= self.nodes@.len(),
                s@ == header + join_lines(self.stored_node_lines().take(i as int)),
            decreases self.nodes@.len() - i,
        {
            let ghost snapshot = s@;
            s.append(self.nodes[i].1.as_str());
            s.append("\n");
            proof {
                assert(self.stored_node_lines().take(i + 1).drop_last() =~= self
                    .stored_node_lines().take(i as int));
                assert(s@ =~= header + join_lines(self.stored_node_lines().take(i + 1)));
            }
            i += 1;
        }
        proof {
            assert(self.stored_node_lines().take(self.nodes@.len() as int) =~= self
                .stored_node_lines());
        }
        s.append("\n");
        let ghost mid = s@;
        let mut j: usize = 0;
        while j < self.edges.len()
            invariant
                0 <= j <= self.edges@.len(),
                s@ == mid + join_lines(self.edge_lines().take(j as int)),
            decreases self.edges@.len() - j,
        {
            s.append(self.edges[j].as_str());
            s.append("\n");
            proof {
                assert(self.edge_lines().take(j + 1).drop_last() =~= self.edge_lines().take(
                    j as int,
                ));
                assert(s@ =~= mid + join_lines(self.edge_lines().take(j + 1)));
            }
            j += 1;
        }
        proof {
            assert(self.edge_lines().take(self.edges@.len() as int) =~= self.edge_lines());
        }
        s.append("}");
        proof {
            assert(s@ =~= dot_text(self.name_view(), self.stored_node_lines(), self.edge_lines()));
        }
        s
    }
}

impl Default for DotBuilder {
    /// A builder for an unnamed graph, rendered under the default name.
    fn default() -> (r: DotBuilder)
        ensures
            r.name_view() == Option::<Seq<char>>::None,
            r.node_lines() == Seq::<(u64, Seq<char>)>::empty(),
            r.edge_lines() == Seq::<Seq<char>>::empty(),
    {
        let r = DotBuilder { name: None, nodes: Vec::new(), edges: Vec::new() };
        proof {
            assert(r.node_lines() =~= Seq::<(u64, Seq<char>)>::empty());
            assert(r.edge_lines() =~= Seq::<Seq<char>>::empty());
        }
        r
    }
}

impl ToDot for DotBuilder {
    open spec fn dot_spec(&self) -> Seq<char> {
        dot_text(self.name_view(), self.stored_node_lines(), self.edge_lines())
    }

    fn to_dot(&self) -> (r: String) {
        self.write()
    }
}

/// Render an attribute list as `key=value` pairs joined by `"; "`.
fn attrs_as_string(attrs: &Vec<(String, DotAttribute)>) -> (r: String)
    ensures
        r@ == attrs_text(attrs@),
{
    let mut s = String::new();
    let mut i: usize = 0;
    while i < attrs.len()
        invariant
            0 <= i <= attrs@.len(),
            s@ == attrs_text(attrs@.take(i as int)),
        decreases attrs@.len() - i,
    {
        if i > 0 {
            s.append("; ");
        }
        s.append(attrs[i].0.as_str());
        s.append("=");
        match &attrs[i].1 {
            DotAttribute::Ident(id) => {
                s.append(id.as_str());
            },
            DotAttribute::String(text) => {
                s.append("\"");
                s.append(text.as_str());
                s.append("\"");
            },
        }
        proof {
            assert(attrs@.take(i + 1).drop_last() =~= attrs@.take(i as int));
            assert(attrs@.take(i + 1).last() == attrs@[i as int]);
            assert(s@ =~= attrs_text(attrs@.take(i + 1)));
        }
        i += 1;
    }
    proof {
        assert(attrs@.take(attrs@.len() as int) =~= attrs@);
    }
    s
}

} // verus!
