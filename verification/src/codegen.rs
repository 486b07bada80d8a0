//! Rust code for linear λ-terms: a term becomes an expression, and a
//! sequent with its term becomes a function.

use vstd::prelude::*;
use vstd::string::StringExecFns;
use crate::formula::{Formula, FormulaView};
use crate::proof_tree::{add_capped, capped};
use crate::sequent::{TwoSidedSequent, TwoSidedSequentView, formula_views};
use crate::term::{Term, TermView};
use crate::text::{
    decimal,
    decimal_string,
    glue2,
    glue3,
    glue5,
    join,
    join_strings,
    repeat,
    repeat_str,
    views,
};
use crate::types::{TypeGenerator, return_text, type_text};

verus! {

/// The type definitions that generated modules rely on.
pub const PRELUDE: &'static str = r#"
// ============================================================================
// Linear Logic Prelude
// ============================================================================

/// Either type for sum (A ⊕ B)
#[derive(Debug, Clone, PartialEq, Eq)]
pub enum Either<A, B> {
    Left(A),
    Right(B),
}

impl<A, B> Either<A, B> {
    /// Check if this is the left variant.
    pub fn is_left(&self) -> bool {
        matches!(self, Either::Left(_))
    }

    /// Check if this is the right variant.
    pub fn is_right(&self) -> bool {
        matches!(self, Either::Right(_))
    }

    /// Unwrap the left variant.
    pub fn unwrap_left(self) -> A {
        match self {
            Either::Left(a) => a,
            Either::Right(_) => panic!("called unwrap_left on Right"),
        }
    }

    /// Unwrap the right variant.
    pub fn unwrap_right(self) -> B {
        match self {
            Either::Left(_) => panic!("called unwrap_right on Left"),
            Either::Right(b) => b,
        }
    }
}

/// With type for lazy pair (A & B)
///
/// Unlike a tuple, you can only observe one component.
/// This implements additive conjunction.
#[derive(Clone)]
pub struct With<A, B> {
    left: Box<dyn FnOnce() -> A>,
    right: Box<dyn FnOnce() -> B>,
}

impl<A: 'static, B: 'static> With<A, B> {
    /// Create a new With from two thunks.
    pub fn new<F, G>(left: F, right: G) -> Self
    where
        F: FnOnce() -> A + 'static,
        G: FnOnce() -> B + 'static,
    {
        With {
            left: Box::new(left),
            right: Box::new(right),
        }
    }

    /// Project to the left component.
    pub fn fst(self) -> A {
        (self.left)()
    }

    /// Project to the right component.
    pub fn snd(self) -> B {
        (self.right)()
    }
}

/// Top type (unit for &)
///
/// Always available, provides no information.
#[derive(Debug, Clone, Copy, PartialEq, Eq)]
pub struct Top;

/// Void type (zero, empty type for ⊕)
///
/// Cannot be constructed, represents impossibility.
#[derive(Debug, Clone, Copy, PartialEq, Eq)]
pub enum Void {}

impl Void {
    /// Since Void is uninhabited, this is unreachable.
    pub fn absurd<T>(self) -> T {
        match self {}
    }
}

/// Par type (A ⅋ B) - dual of tensor
///
/// Represents a continuation that expects either A or B.
/// In terms of linear logic session types, this is parallel composition.
pub struct Par<A, B> {
    _phantom: std::marker::PhantomData<(A, B)>,
}

/// Demand type (?A) - controlled use of a replicable resource
///
/// Represents a demand for a value that may be copied or discarded.
pub struct Demand<A> {
    value: std::rc::Rc<A>,
}

impl<A> Demand<A> {
    /// Create a new demand.
    pub fn new(value: A) -> Self {
        Demand {
            value: std::rc::Rc::new(value),
        }
    }

    /// Access the value.
    pub fn get(&self) -> &A {
        &self.value
    }

    /// Clone the demand.
    pub fn duplicate(&self) -> Self {
        Demand {
            value: std::rc::Rc::clone(&self.value),
        }
    }
}

impl<A: Clone> Demand<A> {
    /// Extract a copy of the value.
    pub fn extract(&self) -> A {
        (*self.value).clone()
    }
}
"#;

/// The Rust expression for a term.
pub open spec fn code_text(t: TermView) -> Seq<char>
    decreases t,
{
    match t {
        TermView::Var(v) => v,
        TermView::Unit => "()"@,
        TermView::Trivial => "Top"@,
        TermView::Pair(a, b) => "("@ + code_text(*a) + ", "@ + code_text(*b) + ")"@,
        TermView::LetPair(x, y, e, body) => "{ let ("@ + x + ", "@ + y + ") = "@ + code_text(*e)
            + "; "@ + code_text(*body) + " }"@,
        TermView::Abs(x, body) => "|"@ + x + "| "@ + code_text(*body),
        TermView::App(f, a) => if *f is Abs {
            "("@ + code_text(*f) + ")("@ + code_text(*a) + ")"@
        } else {
            code_text(*f) + "("@ + code_text(*a) + ")"@
        },
        TermView::Inl(a) => "Either::Left("@ + code_text(*a) + ")"@,
        TermView::Inr(b) => "Either::Right("@ + code_text(*b) + ")"@,
        TermView::Case(s, x, l, y, r) => "match "@ + code_text(*s) + " { Either::Left("@ + x
            + ") => "@ + code_text(*l) + ", Either::Right("@ + y + ") => "@ + code_text(*r)
            + " }"@,
        TermView::Fst(p) => code_text(*p) + ".0"@,
        TermView::Snd(p) => code_text(*p) + ".1"@,
        TermView::Abort(e) => "match "@ + code_text(*e) + " {}"@,
        TermView::Promote(a) => "Rc::new("@ + code_text(*a) + ")"@,
        TermView::Derelict(e) => "Rc::try_unwrap("@ + code_text(*e)
            + ").unwrap_or_else(|rc| (*rc).clone())"@,
        TermView::Discard(_, body) => code_text(*body),
        TermView::Copy(src, x, y, body) => "{ let "@ + x + " = Rc::clone(&"@ + code_text(*src)
            + "); let "@ + y + " = "@ + code_text(*src) + "; "@ + code_text(*body) + " }"@,
    }
}

/// The arguments of a function: for each antecedent formula, in order, a
/// name made of `arg` and its position, a colon and its type.
pub open spec fn argument_texts(v: Seq<FormulaView>) -> Seq<Seq<char>> {
    Seq::new(v.len(), |i: int| "arg"@ + decimal(i as nat) + ": "@ + type_text(v[i]))
}

/// The function `name` for a sequent and its term: the signature, the body
/// indented by `level` steps of four spaces, and the closing brace, each on
/// a line of its own.
pub open spec fn function_text(
    name: Seq<char>,
    seq: TwoSidedSequentView,
    term: TermView,
    level: nat,
) -> Seq<char> {
    "fn "@ + name + "("@ + join(argument_texts(seq.antecedent), ", "@) + ") -> "@ + return_text(
        seq.succedent,
    ) + " {"@ + "\n"@ + repeat("    "@, level) + code_text(term) + "\n"@ + "}"@
}

/// The module for a sequent and its term: a heading that names the sequent,
/// the import of `Rc`, the prelude and the function.
pub open spec fn module_text(
    name: Seq<char>,
    seq: TwoSidedSequentView,
    term: TermView,
    level: nat,
) -> Seq<char> {
    "//! Generated from sequent: "@ + seq.pretty() + "\n"@ + "//!"@ + "\n"@
        + "//! This code was generated by lolli-codegen from a linear logic proof."@ + "\n"@
        + "\n"@ + "use std::rc::Rc;"@ + "\n"@ + "\n"@ + PRELUDE@ + "\n"@ + "\n"@ + function_text(
        name,
        seq,
        term,
        level,
    )
}

/// Rust code generator.
pub struct RustCodegen {
    /// Current indentation level
    indent: usize,
    /// Type generator
    types: TypeGenerator,
    /// Variable counter for fresh names
    var_counter: usize,
}

impl Default for RustCodegen {
    fn default() -> (r: Self)
        ensures
            r.level() == 0,
            r.counter() == 0,
    {
        RustCodegen::new()
    }
}

impl RustCodegen {
    /// The indentation level that the generator is at.
    pub closed spec fn level(&self) -> nat {
        self.indent as nat
    }

    /// The number that the next fresh variable gets.
    pub closed spec fn counter(&self) -> nat {
        self.var_counter as nat
    }

    /// Makes a code generator at indentation level 0, whose first fresh
    /// variable is number 0.
    pub fn new() -> (r: RustCodegen)
        ensures
            r.level() == 0,
            r.counter() == 0,
    {
        RustCodegen { indent: 0, types: TypeGenerator::new(), var_counter: 0 }
    }

    /// Makes a variable name that was not handed out before: `_v` and the
    /// counter, which then goes up by one. The counter stops at the greatest
    /// `usize`.
    pub fn fresh_var(&mut self) -> (r: String)
        ensures
            r@ == "_v"@ + decimal(old(self).counter()),
            final(self).counter() == capped(old(self).counter() + 1),
            final(self).level() == old(self).level(),
    {
        let v = glue2("_v", decimal_string(self.var_counter).as_str());
        self.var_counter = add_capped(self.var_counter, 1);
        v
    }

    /// The indentation at the current level.
    fn indent_str(&self) -> (r: String)
        ensures
            r@ == repeat("    "@, self.level()),
    {
        repeat_str("    ", self.indent)
    }

    /// Writes the Rust type of a formula.
    pub fn formula_to_type(&self, formula: &Formula) -> (r: String)
        ensures
            r@ == type_text(formula@),
    {
        self.types.generate(formula)
    }

    /// Writes the Rust expression for a term. The generator stays as it was.
    pub fn term_to_code(&mut self, term: &Term) -> (r: String)
        ensures
            r@ == code_text(term@),
            final(self).level() == old(self).level(),
            final(self).counter() == old(self).counter(),
        decreases term,
    {
        match term {
            Term::Var(v) => v.clone(),
            Term::Unit => String::from_str("()"),
            Term::Trivial => String::from_str("Top"),
            Term::Pair(a, b) => {
                let a_code = self.term_to_code(a);
                let b_code = self.term_to_code(b);
                glue5("(", a_code.as_str(), ", ", b_code.as_str(), ")")
            },
            Term::LetPair(x, y, pair, body) => {
                let pair_code = self.term_to_code(pair);
                let body_code = self.term_to_code(body);
                let mut out = String::from_str("{ let (");
                out.append(x.as_str());
                out.append(", ");
                out.append(y.as_str());
                out.append(") = ");
                out.append(pair_code.as_str());
                out.append("; ");
                out.append(body_code.as_str());
                out.append(" }");
                out
            },
            Term::Abs(x, body) => {
                let body_code = self.term_to_code(body);
                let mut out = String::from_str("|");
                out.append(x.as_str());
                out.append("| ");
                out.append(body_code.as_str());
                out
            },
            Term::App(f, a) => {
                let f_code = self.term_to_code(f);
                let a_code = self.term_to_code(a);
                let closure = match &**f {
                    Term::Abs(_, _) => true,
                    _ => false,
                };
                if closure {
                    glue5("(", f_code.as_str(), ")(", a_code.as_str(), ")")
                } else {
                    let mut out = f_code;
                    out.append("(");
                    out.append(a_code.as_str());
                    out.append(")");
                    out
                }
            },
            Term::Inl(a) => {
                let code = self.term_to_code(a);
                glue3("Either::Left(", code.as_str(), ")")
            },
            Term::Inr(b) => {
                let code = self.term_to_code(b);
                glue3("Either::Right(", code.as_str(), ")")
            },
            Term::Case(scrut, x, left, y, right) => {
                let scrut_code = self.term_to_code(scrut);
                let left_code = self.term_to_code(left);
                let right_code = self.term_to_code(right);
                let mut out = String::from_str("match ");
                out.append(scrut_code.as_str());
                out.append(" { Either::Left(");
                out.append(x.as_str());
                out.append(") => ");
                out.append(left_code.as_str());
                out.append(", Either::Right(");
                out.append(y.as_str());
                out.append(") => ");
                out.append(right_code.as_str());
                out.append(" }");
                out
            },
            Term::Fst(p) => {
                let code = self.term_to_code(p);
                glue2(code.as_str(), ".0")
            },
            Term::Snd(p) => {
                let code = self.term_to_code(p);
                glue2(code.as_str(), ".1")
            },
            Term::Abort(e) => {
                let code = self.term_to_code(e);
                glue3("match ", code.as_str(), " {}")
            },
            Term::Promote(a) => {
                let code = self.term_to_code(a);
                glue3("Rc::new(", code.as_str(), ")")
            },
            Term::Derelict(e) => {
                let code = self.term_to_code(e);
                glue3("Rc::try_unwrap(", code.as_str(), ").unwrap_or_else(|rc| (*rc).clone())")
            },
            Term::Discard(_, body) => self.term_to_code(body),
            Term::Copy(src, x, y, body) => {
                let src_code = self.term_to_code(src);
                let body_code = self.term_to_code(body);
                let mut out = String::from_str("{ let ");
                out.append(x.as_str());
                out.append(" = Rc::clone(&");
                out.append(src_code.as_str());
                out.append("); let ");
                out.append(y.as_str());
                out.append(" = ");
                out.append(src_code.as_str());
                out.append("; ");
                out.append(body_code.as_str());
                out.append(" }");
                out
            },
        }
    }

    /// Writes the arguments of the function for an antecedent.
    fn arguments(&self, antecedent: &Vec<Formula>) -> (r: Vec<String>)
        ensures
            views(r@) == argument_texts(formula_views(antecedent@)),
    {
        let mut args: Vec<String> = Vec::new();
        let mut i: usize = 0;
        while i < antecedent.len()
            invariant
                i <= antecedent.len(),
                args.len() == i,
                forall|k: int|
                    0 <= k < i ==> #[trigger] args[k]@ == "arg"@ + decimal(k as nat) + ": "@
                        + type_text(antecedent[k]@),
            decreases antecedent.len() - i,
        {
            let mut arg = glue2("arg", decimal_string(i).as_str());
            arg.append(": ");
            arg.append(self.types.generate(&antecedent[i]).as_str());
            args.push(arg);
            i = i + 1;
        }
        assert(views(args@) =~= argument_texts(formula_views(antecedent@)));
        args
    }

    /// Writes the function `name` that takes the antecedent of the sequent
    /// as its arguments, returns its succedent and has the term as its body,
    /// one level further in than the generator is. The generator stays as it
    /// was.
    pub fn generate_function(&mut self, name: &str, sequent: &TwoSidedSequent, term: &Term) -> (r:
        String)
        ensures
            r@ == function_text(name@, sequent@, term@, capped(old(self).level() + 1)),
            final(self).level() == old(self).level(),
            final(self).counter() == old(self).counter(),
    {
        let args = self.arguments(&sequent.antecedent);
        let return_type = self.types.generate_return(sequent.succedent.as_slice());
        let outer = self.indent;
        self.indent = add_capped(self.indent, 1);
        let body = self.term_to_code(term);
        let inner = self.indent_str();
        self.indent = outer;
        let mut out = String::from_str("fn ");
        out.append(name);
        out.append("(");
        out.append(join_strings(&args, ", ").as_str());
        out.append(") -> ");
        out.append(return_type.as_str());
        out.append(" {");
        out.append("\n");
        out.append(inner.as_str());
        out.append(body.as_str());
        out.append("\n");
        out.append("}");
        out
    }

    /// Writes a module that holds the imports, the prelude and the function
    /// for the sequent and its term. The generator stays as it was.
    pub fn generate_module(&mut self, name: &str, sequent: &TwoSidedSequent, term: &Term) -> (r:
        String)
        ensures
            r@ == module_text(name@, sequent@, term@, capped(old(self).level() + 1)),
            final(self).level() == old(self).level(),
            final(self).counter() == old(self).counter(),
    {
        let function = self.generate_function(name, sequent, term);
        let mut out = String::from_str("//! Generated from sequent: ");
        out.append(sequent.pretty().as_str());
        out.append("\n");
        out.append("//!");
        out.append("\n");
        out.append("//! This code was generated by lolli-codegen from a linear logic proof.");
        out.append("\n");
        out.append("\n");
        out.append("use std::rc::Rc;");
        out.append("\n");
        out.append("\n");
        out.append(PRELUDE);
        out.append("\n");
        out.append("\n");
        out.append(function.as_str());
        out
    }
}

/// Writes the function `name` for a sequent and its term, with a generator
/// of its own.
pub fn generate_function(name: &str, sequent: &TwoSidedSequent, term: &Term) -> (r: String)
    ensures
        r@ == function_text(name@, sequent@, term@, 1),
{
    let mut codegen = RustCodegen::new();
    codegen.generate_function(name, sequent, term)
}

/// Writes the module for a sequent and its term, with a generator of its
/// own.
pub fn generate_module(name: &str, sequent: &TwoSidedSequent, term: &Term) -> (r: String)
    ensures
        r@ == module_text(name@, sequent@, term@, 1),
{
    let mut codegen = RustCodegen::new();
    codegen.generate_module(name, sequent, term)
}

} // verus!
