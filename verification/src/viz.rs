//! Proofs as LaTeX proof trees and as Graphviz graphs.

use vstd::prelude::*;
use vstd::string::StringExecFns;
use crate::ascii::{Style, tree_lines};
use crate::proof_tree::{Proof, ProofView, add_capped, capped};
use crate::sequent::{pretty_latex_each, pretty_latex_formulas};
use crate::text::{
    decimal,
    decimal_string,
    escape_quotes,
    escape_quotes_in,
    glue2,
    join,
    join_strings,
    repeat,
    views,
};

verus! {

/// The line of a node in a `bussproofs` tree: the command for its number of
/// premises, its conclusion behind a turnstile, and, for a node with
/// premises, the rule's name in a comment.
pub open spec fn latex_node(p: ProofView) -> Seq<char> {
    let conclusion = join(pretty_latex_each(p.conclusion.linear), ", "@);
    if p.premises.len() == 0 {
        "  \\AxiomC{$\\vdash "@ + conclusion + "$}"@
    } else if p.premises.len() == 1 {
        "  \\UnaryInfC{$\\vdash "@ + conclusion + "$} % "@ + p.rule.name()
    } else if p.premises.len() == 2 {
        "  \\BinaryInfC{$\\vdash "@ + conclusion + "$} % "@ + p.rule.name()
    } else {
        "  \\TrinaryInfC{$\\vdash "@ + conclusion + "$} % "@ + p.rule.name()
    }
}

/// The `bussproofs` lines of the first `n` of the given proofs.
pub open spec fn latex_lines_of_first(proofs: Seq<ProofView>, n: nat) -> Seq<Seq<char>>
    decreases proofs, n,
{
    if n == 0 || n > proofs.len() {
        Seq::empty()
    } else {
        latex_lines_of_first(proofs, (n - 1) as nat) + latex_lines(proofs[n - 1])
    }
}

/// The `bussproofs` lines of a proof: those of its premises, then its own.
pub open spec fn latex_lines(p: ProofView) -> Seq<Seq<char>>
    decreases p,
{
    latex_lines_of_first(p.premises, p.premises.len()).push(latex_node(p))
}

/// The proof as a `prooftree` environment.
pub open spec fn latex_text(p: ProofView) -> Seq<char> {
    join(seq!["\\begin{prooftree}"@] + latex_lines(p) + seq!["\\end{prooftree}"@], "\n"@)
}

/// The number of nodes in the first `n` of the given proofs.
pub open spec fn nodes_in(proofs: Seq<ProofView>, n: nat) -> nat
    decreases proofs, n,
{
    if n == 0 || n > proofs.len() {
        0
    } else {
        nodes_in(proofs, (n - 1) as nat) + node_count(proofs[n - 1])
    }
}

/// The number of nodes of a proof.
pub open spec fn node_count(p: ProofView) -> nat
    decreases p,
{
    1 + nodes_in(p.premises, p.premises.len())
}

/// The line that declares the node numbered `id`: its conclusion, with the
/// double quotes escaped, and the rule's name below it. Numbers stop at the
/// greatest `usize`.
pub open spec fn dot_node(p: ProofView, id: nat) -> Seq<char> {
    "  n"@ + decimal(capped(id)) + " [label=\"⊢ "@ + escape_quotes(p.conclusion.pretty())
        + "\\n("@ + p.rule.name() + ")\"];"@
}

/// The line for the edge from a premise to its conclusion.
pub open spec fn dot_edge(child: nat, parent: nat) -> Seq<char> {
    "  n"@ + decimal(capped(child)) + " -> n"@ + decimal(capped(parent)) + ";"@
}

/// The lines for the first `n` premises of the node numbered `parent`,
/// where the first premise gets the number `start`: each premise's own
/// lines, then its edge to the parent.
pub open spec fn dot_lines_of_first(
    proofs: Seq<ProofView>,
    n: nat,
    parent: nat,
    start: nat,
) -> Seq<Seq<char>>
    decreases proofs, n,
{
    if n == 0 || n > proofs.len() {
        Seq::empty()
    } else {
        let id = start + nodes_in(proofs, (n - 1) as nat);
        let before = dot_lines_of_first(proofs, (n - 1) as nat, parent, start);
        (before + dot_lines(proofs[n - 1], id)).push(dot_edge(id, parent))
    }
}

/// The lines for a proof whose root gets the number `id`: the nodes are
/// numbered from the root on, each premise before the next.
pub open spec fn dot_lines(p: ProofView, id: nat) -> Seq<Seq<char>>
    decreases p,
{
    seq![dot_node(p, id)] + dot_lines_of_first(p.premises, p.premises.len(), id, id + 1)
}

/// The proof as a Graphviz graph, drawn bottom to top.
pub open spec fn dot_text(p: ProofView) -> Seq<char> {
    join(
        seq!["digraph proof {"@, "  rankdir=BT;"@, "  node [shape=box];"@] + dot_lines(p, 0)
            + seq!["}"@],
        "\n"@,
    )
}

/// Adds the `bussproofs` lines of a proof.
pub fn proof_to_latex_inner(proof: &Proof, lines: &mut Vec<String>)
    ensures
        views(final(lines)@) == views(old(lines)@) + latex_lines(proof@),
    decreases proof,
{
    let ghost before = views(lines@);
    let mut i: usize = 0;
    assert(views(lines@) =~= before + latex_lines_of_first(proof@.premises, 0));
    while i < proof.premises.len()
        invariant
            i <= proof.premises.len(),
            views(lines@) == before + latex_lines_of_first(proof@.premises, i as nat),
        decreases proof.premises.len() - i,
    {
        proof_to_latex_inner(&proof.premises[i], lines);
        proof {
            assert(proof@.premises[i as int] == proof.premises[i as int]@);
            assert(views(lines@) =~= before + latex_lines_of_first(
                proof@.premises,
                (i + 1) as nat,
            ));
        }
        i = i + 1;
    }
    let conclusion = join_strings(&pretty_latex_formulas(&proof.conclusion.linear), ", ");
    let rule_name = proof.rule.name();
    let n = proof.premises.len();
    let mut line = if n == 0 {
        String::from_str("  \\AxiomC{$\\vdash ")
    } else if n == 1 {
        String::from_str("  \\UnaryInfC{$\\vdash ")
    } else if n == 2 {
        String::from_str("  \\BinaryInfC{$\\vdash ")
    } else {
        String::from_str("  \\TrinaryInfC{$\\vdash ")
    };
    line.append(conclusion.as_str());
    if n == 0 {
        line.append("$}");
    } else {
        line.append("$} % ");
        line.append(rule_name.as_str());
    }
    let ghost above = views(lines@);
    let ghost text = line@;
    lines.push(line);
    assert(text == latex_node(proof@));
    assert(views(lines@) =~= above.push(text));
    assert(views(lines@) =~= before + latex_lines(proof@));
}

/// Writes a proof as a `prooftree` environment of the `bussproofs` package.
pub fn proof_to_latex(proof: &Proof, _depth: usize) -> (r: String)
    ensures
        r@ == latex_text(proof@),
{
    let mut lines: Vec<String> = Vec::new();
    lines.push(String::from_str("\\begin{prooftree}"));
    assert(views(lines@) =~= seq!["\\begin{prooftree}"@]);
    proof_to_latex_inner(proof, &mut lines);
    let ghost above = views(lines@);
    lines.push(String::from_str("\\end{prooftree}"));
    assert(views(lines@) =~= above + seq!["\\end{prooftree}"@]);
    join_strings(&lines, "\n")
}

/// Adds the Graphviz lines of a proof whose root gets the number in
/// `counter`, moves the counter past the proof's nodes, and returns the
/// root's number. The counter stops at the greatest `usize`.
pub fn proof_to_dot_inner(proof: &Proof, lines: &mut Vec<String>, counter: &mut usize) -> (r:
    usize)
    ensures
        r == *old(counter),
        *final(counter) as nat == capped(*old(counter) as nat + node_count(proof@)),
        views(final(lines)@) == views(old(lines)@) + dot_lines(proof@, *old(counter) as nat),
    decreases proof,
{
    let ghost before = views(lines@);
    let my_id = *counter;
    let ghost id = my_id as nat;
    *counter = add_capped(*counter, 1);
    let conclusion = escape_quotes_in(proof.conclusion.pretty().as_str());
    let rule_name = proof.rule.name();
    let mut node = glue2("  n", decimal_string(my_id).as_str());
    node.append(" [label=\"⊢ ");
    node.append(conclusion.as_str());
    node.append("\\n(");
    node.append(rule_name.as_str());
    node.append(")\"];");
    let ghost node_text = node@;
    lines.push(node);
    assert(node_text == dot_node(proof@, id));
    assert(views(lines@) =~= before + seq![node_text] + dot_lines_of_first(
        proof@.premises,
        0,
        id,
        id + 1,
    ));
    let mut i: usize = 0;
    while i < proof.premises.len()
        invariant
            i <= proof.premises.len(),
            id == my_id as nat,
            node_text == dot_node(proof@, id),
            *counter as nat == capped(id + 1 + nodes_in(proof@.premises, i as nat)),
            views(lines@) == before + seq![node_text] + dot_lines_of_first(
                proof@.premises,
                i as nat,
                id,
                id + 1,
            ),
        decreases proof.premises.len() - i,
    {
        let ghost so_far = views(lines@);
        let ghost start = id + 1 + nodes_in(proof@.premises, i as nat);
        let ghost at = *counter as nat;
        let child_id = proof_to_dot_inner(&proof.premises[i], lines, counter);
        proof {
            assert(proof@.premises[i as int] == proof.premises[i as int]@);
            lemma_dot_lines_capped(proof.premises[i as int]@, start);
        }
        let ghost with_child = views(lines@);
        let mut edge = glue2("  n", decimal_string(child_id).as_str());
        edge.append(" -> n");
        edge.append(decimal_string(my_id).as_str());
        edge.append(";");
        let ghost edge_text = edge@;
        lines.push(edge);
        proof {
            assert(capped(capped(id)) == capped(id));
            assert(edge_text == dot_edge(start, id));
            assert(views(lines@) =~= with_child.push(edge_text));
            assert(views(lines@) =~= before + seq![node_text] + dot_lines_of_first(
                proof@.premises,
                (i + 1) as nat,
                id,
                id + 1,
            ));
        }
        i = i + 1;
    }
    assert(views(lines@) =~= before + dot_lines(proof@, id));
    my_id
}

/// The lines of a proof depend on the number of its root only up to the
/// greatest `usize`, where numbers stop.
pub proof fn lemma_dot_lines_capped(p: ProofView, id: nat)
    ensures
        dot_lines(p, capped(id)) == dot_lines(p, id),
    decreases p,
{
    lemma_dot_lines_of_first_capped(p, p.premises.len(), id);
    assert(dot_node(p, capped(id)) == dot_node(p, id));
}

/// The lines of the premises depend on the numbers only up to the greatest
/// `usize`.
proof fn lemma_dot_lines_of_first_capped(p: ProofView, n: nat, id: nat)
    requires
        n <= p.premises.len(),
    ensures
        dot_lines_of_first(p.premises, n, capped(id), capped(id) + 1) == dot_lines_of_first(
            p.premises,
            n,
            id,
            id + 1,
        ),
    decreases p, n,
{
    if n > 0 {
        lemma_dot_lines_of_first_capped(p, (n - 1) as nat, id);
        let inner = nodes_in(p.premises, (n - 1) as nat);
        let a = capped(id) + 1 + inner;
        let b = id + 1 + inner;
        lemma_dot_lines_capped(p.premises[n - 1], a);
        lemma_dot_lines_capped(p.premises[n - 1], b);
        assert(capped(a) == capped(b));
        assert(dot_edge(a, capped(id)) == dot_edge(b, id));
    }
}

/// Writes a proof as a Graphviz graph.
pub fn proof_to_dot(proof: &Proof) -> (r: String)
    ensures
        r@ == dot_text(proof@),
{
    let mut lines: Vec<String> = Vec::new();
    lines.push(String::from_str("digraph proof {"));
    lines.push(String::from_str("  rankdir=BT;"));
    lines.push(String::from_str("  node [shape=box];"));
    assert(views(lines@) =~= seq!["digraph proof {"@, "  rankdir=BT;"@, "  node [shape=box];"@]);
    let mut counter: usize = 0;
    proof_to_dot_inner(proof, &mut lines, &mut counter);
    let ghost above = views(lines@);
    lines.push(String::from_str("}"));
    assert(views(lines@) =~= above + seq!["}"@]);
    join_strings(&lines, "\n")
}

/// Proof tree renderer.
pub struct TreeRenderer {
    /// Use Unicode box-drawing characters
    pub unicode: bool,
}

impl Default for TreeRenderer {
    fn default() -> (r: Self)
        ensures
            r.unicode,
    {
        TreeRenderer { unicode: true }
    }
}

impl TreeRenderer {
    /// The style of the text trees: the rules' names shown, two spaces of
    /// indentation.
    pub open spec fn style(&self) -> Style {
        Style { unicode: self.unicode, show_rules: true, unit: repeat(" "@, 2) }
    }

    /// Makes a renderer that draws in Unicode.
    pub fn new() -> (r: TreeRenderer)
        ensures
            r.unicode,
    {
        TreeRenderer { unicode: true }
    }

    /// Draws a proof as a text tree.
    pub fn render(&self, proof: &Proof) -> (r: String)
        ensures
            r@ == join(tree_lines(proof@, Seq::empty(), self.style()), "\n"@),
    {
        let mut drawer = crate::ascii::TreeRenderer::new();
        drawer.unicode = self.unicode;
        drawer.render(proof)
    }

    /// Writes a proof as LaTeX, for the `bussproofs` package.
    pub fn render_latex(&self, proof: &Proof) -> (r: String)
        ensures
            r@ == latex_text(proof@),
    {
        proof_to_latex(proof, 0)
    }
}

/// Proof net renderer.
pub struct NetRenderer;

impl NetRenderer {
    /// Writes a proof as a Graphviz graph.
    pub fn render_dot(&self, proof: &Proof) -> (r: String)
        ensures
            r@ == dot_text(proof@),
    {
        proof_to_dot(proof)
    }
}

} // verus!
