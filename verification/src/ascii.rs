//! Proof trees as text: the premises above an inference line, the
//! conclusion below it, each level indented.

use vstd::prelude::*;
use vstd::string::StringExecFns;
use vstd::utf8::encode_utf8;
use crate::formula::FormulaView;
use crate::proof_tree::{Proof, ProofView};
use crate::sequent::{pretty_ascii_each, pretty_ascii_formulas, pretty_each, pretty_formulas};
use crate::text::{glue2, join, join_strings, repeat, repeat_str, views};

verus! {

/// How a tree is drawn: in Unicode or ASCII, with or without the names of
/// the rules, and with `unit` as one step of indentation.
pub ghost struct Style {
    pub unicode: bool,
    pub show_rules: bool,
    pub unit: Seq<char>,
}

/// The linear formulas of a conclusion, separated by commas.
pub open spec fn sequent_text(linear: Seq<FormulaView>, unicode: bool) -> Seq<char> {
    if unicode {
        join(pretty_each(linear), ", "@)
    } else {
        join(pretty_ascii_each(linear), ", "@)
    }
}

/// The inference line above a conclusion: as many dashes as the conclusion
/// has bytes in UTF-8, which is the length that a string reports, and at
/// least 20.
pub open spec fn inference_line(conclusion: Seq<char>, unicode: bool) -> Seq<char> {
    let bytes = encode_utf8(conclusion).len() as usize;
    let width = if bytes > 20 {
        bytes as nat
    } else {
        20
    };
    repeat(
        if unicode {
            "─"@
        } else {
            "-"@
        },
        width,
    )
}

/// The lines that a node itself adds below those of its premises. A node
/// with premises adds an inference line, with the rule's name behind it if
/// names are shown, and its conclusion. A leaf adds its conclusion, with
/// the rule's name in brackets behind it if names are shown.
pub open spec fn node_lines(p: ProofView, prefix: Seq<char>, style: Style) -> Seq<Seq<char>> {
    let conclusion = sequent_text(p.conclusion.linear, style.unicode);
    if p.premises.len() > 0 {
        seq![
            if style.show_rules {
                prefix + inference_line(conclusion, style.unicode) + "  "@ + p.rule.name()
            } else {
                prefix + inference_line(conclusion, style.unicode)
            },
            prefix + "⊢ "@ + conclusion,
        ]
    } else if style.show_rules {
        seq![prefix + "⊢ "@ + conclusion + "  ("@ + p.rule.name() + ")"@]
    } else {
        seq![prefix + "⊢ "@ + conclusion]
    }
}

/// The lines of the first `n` of the given proofs, each drawn at `prefix`.
pub open spec fn lines_of_first(
    proofs: Seq<ProofView>,
    n: nat,
    prefix: Seq<char>,
    style: Style,
) -> Seq<Seq<char>>
    decreases proofs, n,
{
    if n == 0 || n > proofs.len() {
        Seq::empty()
    } else {
        lines_of_first(proofs, (n - 1) as nat, prefix, style) + tree_lines(
            proofs[n - 1],
            prefix,
            style,
        )
    }
}

/// The lines of a proof drawn at `prefix`: those of its premises, one step
/// further in, then its own.
pub open spec fn tree_lines(p: ProofView, prefix: Seq<char>, style: Style) -> Seq<Seq<char>>
    decreases p,
{
    lines_of_first(p.premises, p.premises.len(), prefix + style.unit, style) + node_lines(
        p,
        prefix,
        style,
    )
}

/// Proof tree renderer for ASCII/Unicode output.
pub struct TreeRenderer {
    /// Use Unicode box-drawing characters
    pub unicode: bool,
    /// Show rule names
    pub show_rules: bool,
    /// Indent width
    pub indent_width: usize,
}

impl Default for TreeRenderer {
    fn default() -> (r: Self)
        ensures
            r.unicode,
            r.show_rules,
            r.indent_width == 2,
    {
        TreeRenderer { unicode: true, show_rules: true, indent_width: 2 }
    }
}

impl TreeRenderer {
    /// The style that the renderer draws in.
    pub open spec fn style(&self) -> Style {
        Style {
            unicode: self.unicode,
            show_rules: self.show_rules,
            unit: repeat(" "@, self.indent_width as nat),
        }
    }

    /// Makes a renderer that draws in Unicode, shows the rules' names and
    /// indents by two spaces.
    pub fn new() -> (r: TreeRenderer)
        ensures
            r.unicode,
            r.show_rules,
            r.indent_width == 2,
    {
        TreeRenderer { unicode: true, show_rules: true, indent_width: 2 }
    }

    /// Draws a proof as a text tree, the lines separated by newlines.
    pub fn render(&self, proof: &Proof) -> (r: String)
        ensures
            r@ == join(tree_lines(proof@, Seq::empty(), self.style()), "\n"@),
    {
        let mut lines: Vec<String> = Vec::new();
        let unit = repeat_str(" ", self.indent_width);
        assert(views(lines@) =~= Seq::empty());
        self.render_proof(proof, "", unit.as_str(), &mut lines);
        proof {
            reveal_strlit("");
            assert(""@ =~= Seq::<char>::empty());
            assert(views(lines@) =~= tree_lines(proof@, Seq::empty(), self.style()));
        }
        join_strings(&lines, "\n")
    }

    /// Adds the lines of a proof drawn at `prefix`, with `unit` as one step
    /// of indentation.
    fn render_proof(&self, proof: &Proof, prefix: &str, unit: &str, lines: &mut Vec<String>)
        requires
            unit@ == self.style().unit,
        ensures
            views(final(lines)@) == views(old(lines)@) + tree_lines(
                proof@,
                prefix@,
                self.style(),
            ),
        decreases proof,
    {
        let ghost before = views(lines@);
        let ghost style = self.style();
        let inner = glue2(prefix, unit);
        let mut i: usize = 0;
        assert(views(lines@) =~= before + lines_of_first(proof@.premises, 0, inner@, style));
        while i < proof.premises.len()
            invariant
                i <= proof.premises.len(),
                style == self.style(),
                unit@ == style.unit,
                inner@ == prefix@ + style.unit,
                views(lines@) == before + lines_of_first(
                    proof@.premises,
                    i as nat,
                    inner@,
                    style,
                ),
            decreases proof.premises.len() - i,
        {
            let ghost so_far = views(lines@);
            self.render_proof(&proof.premises[i], inner.as_str(), unit, lines);
            proof {
                assert(proof@.premises[i as int] == proof.premises[i as int]@);
                assert(views(lines@) =~= before + lines_of_first(
                    proof@.premises,
                    (i + 1) as nat,
                    inner@,
                    style,
                ));
            }
            i = i + 1;
        }
        let conclusion = self.format_sequent(proof);
        let rule_name = proof.rule.name();
        let ghost above = views(lines@);
        if proof.premises.len() > 0 {
            let line_char = if self.unicode {
                "─"
            } else {
                "-"
            };
            let width = if conclusion.as_str().len() > 20 {
                conclusion.as_str().len()
            } else {
                20
            };
            let line = repeat_str(line_char, width);
            let mut rule_line = glue2(prefix, line.as_str());
            if self.show_rules {
                rule_line.append("  ");
                rule_line.append(rule_name.as_str());
            }
            assert(line@ == inference_line(conclusion@, self.unicode));
            let ghost first = rule_line@;
            lines.push(rule_line);
            let mut bottom = glue2(prefix, "⊢ ");
            bottom.append(conclusion.as_str());
            let ghost second = bottom@;
            lines.push(bottom);
            assert(proof@.premises.len() > 0);
            assert(node_lines(proof@, prefix@, style) =~= seq![first, second]);
            assert(views(lines@) =~= above + seq![first, second]);
        } else if self.show_rules {
            let mut leaf = glue2(prefix, "⊢ ");
            leaf.append(conclusion.as_str());
            leaf.append("  (");
            leaf.append(rule_name.as_str());
            leaf.append(")");
            lines.push(leaf);
            assert(views(lines@) =~= above + node_lines(proof@, prefix@, style));
        } else {
            let mut bottom = glue2(prefix, "⊢ ");
            bottom.append(conclusion.as_str());
            lines.push(bottom);
            assert(views(lines@) =~= above + node_lines(proof@, prefix@, style));
        }
        assert(views(lines@) =~= before + tree_lines(proof@, prefix@, style));
    }

    /// Writes the linear formulas of the proof's conclusion, separated by
    /// commas.
    fn format_sequent(&self, proof: &Proof) -> (r: String)
        ensures
            r@ == sequent_text(proof@.conclusion.linear, self.unicode),
    {
        if self.unicode {
            join_strings(&pretty_formulas(&proof.conclusion.linear), ", ")
        } else {
            join_strings(&pretty_ascii_formulas(&proof.conclusion.linear), ", ")
        }
    }
}

} // verus!
