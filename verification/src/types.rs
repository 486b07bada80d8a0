//! Surface types for formulas: the Rust type that stands for each
//! connective.

use vstd::prelude::*;
use vstd::string::StringExecFns;
use crate::formula::{Formula, FormulaView};
use crate::sequent::formula_views;
use crate::text::{glue2, glue3, glue5, join, join_strings, views};

verus! {

/// The surface type of a formula.
pub open spec fn type_text(f: FormulaView) -> Seq<char>
    decreases f,
{
    match f {
        FormulaView::Atom(name) => name,
        FormulaView::NegAtom(name) => name + "Dual"@,
        FormulaView::Tensor(a, b) => "("@ + type_text(*a) + ", "@ + type_text(*b) + ")"@,
        FormulaView::Par(a, b) => "Par<"@ + type_text(*a) + ", "@ + type_text(*b) + ">"@,
        FormulaView::Lolli(a, b) => "impl FnOnce("@ + type_text(*a) + ") -> "@ + type_text(*b),
        FormulaView::With(a, b) => "With<"@ + type_text(*a) + ", "@ + type_text(*b) + ">"@,
        FormulaView::Plus(a, b) => "Either<"@ + type_text(*a) + ", "@ + type_text(*b) + ">"@,
        FormulaView::OfCourse(a) => "Rc<"@ + type_text(*a) + ">"@,
        FormulaView::WhyNot(a) => "Demand<"@ + type_text(*a) + ">"@,
        FormulaView::One => "()"@,
        FormulaView::Bottom => "!"@,
        FormulaView::Top => "Top"@,
        FormulaView::Zero => "Void"@,
    }
}

/// The surface type of each formula of the sequence.
pub open spec fn type_text_each(v: Seq<FormulaView>) -> Seq<Seq<char>> {
    Seq::new(v.len(), |i: int| type_text(v[i]))
}

/// The return type for a succedent: the unit type for none, the type of the
/// formula for one, a tuple of the types for more.
pub open spec fn return_text(v: Seq<FormulaView>) -> Seq<char> {
    if v.len() == 0 {
        "()"@
    } else if v.len() == 1 {
        type_text(v[0])
    } else {
        "("@ + join(type_text_each(v), ", "@) + ")"@
    }
}

/// Generates Rust types from linear logic formulas.
pub struct TypeGenerator {
    /// Use explicit lifetime annotations
    pub use_lifetimes: bool,
}

impl Default for TypeGenerator {
    fn default() -> (r: Self)
        ensures
            !r.use_lifetimes,
    {
        TypeGenerator::new()
    }
}

impl TypeGenerator {
    /// Makes a type generator that writes no lifetimes.
    pub fn new() -> (r: TypeGenerator)
        ensures
            !r.use_lifetimes,
    {
        TypeGenerator { use_lifetimes: false }
    }

    /// Writes the surface type of a formula.
    pub fn generate(&self, formula: &Formula) -> (r: String)
        ensures
            r@ == type_text(formula@),
        decreases formula,
    {
        match formula {
            Formula::Atom(name) => name.clone(),
            Formula::NegAtom(name) => glue2(name.as_str(), "Dual"),
            Formula::Tensor(a, b) => glue5(
                "(",
                self.generate(a).as_str(),
                ", ",
                self.generate(b).as_str(),
                ")",
            ),
            Formula::Par(a, b) => glue5(
                "Par<",
                self.generate(a).as_str(),
                ", ",
                self.generate(b).as_str(),
                ">",
            ),
            Formula::Lolli(a, b) => {
                let mut out = String::from_str("impl FnOnce(");
                out.append(self.generate(a).as_str());
                out.append(") -> ");
                out.append(self.generate(b).as_str());
                out
            },
            Formula::With(a, b) => glue5(
                "With<",
                self.generate(a).as_str(),
                ", ",
                self.generate(b).as_str(),
                ">",
            ),
            Formula::Plus(a, b) => glue5(
                "Either<",
                self.generate(a).as_str(),
                ", ",
                self.generate(b).as_str(),
                ">",
            ),
            Formula::OfCourse(a) => glue3("Rc<", self.generate(a).as_str(), ">"),
            Formula::WhyNot(a) => glue3("Demand<", self.generate(a).as_str(), ">"),
            Formula::One => String::from_str("()"),
            Formula::Bottom => String::from_str("!"),
            Formula::Top => String::from_str("Top"),
            Formula::Zero => String::from_str("Void"),
        }
    }

    /// Writes the type of a formula as an owned value. Linear values are
    /// always owned, so this is the surface type itself.
    pub fn generate_owned(&self, formula: &Formula) -> (r: String)
        ensures
            r@ == type_text(formula@),
    {
        self.generate(formula)
    }

    /// Writes a function argument: the name, a colon and the type.
    pub fn generate_arg(&self, formula: &Formula, name: &str) -> (r: String)
        ensures
            r@ == name@ + ": "@ + type_text(formula@),
    {
        glue3(name, ": ", self.generate(formula).as_str())
    }

    /// Writes the return type for a succedent.
    pub fn generate_return(&self, formulas: &[Formula]) -> (r: String)
        ensures
            r@ == return_text(formula_views(formulas@)),
    {
        if formulas.len() == 0 {
            String::from_str("()")
        } else if formulas.len() == 1 {
            self.generate(&formulas[0])
        } else {
            let mut types: Vec<String> = Vec::new();
            let mut i: usize = 0;
            while i < formulas.len()
                invariant
                    i <= formulas.len(),
                    types.len() == i,
                    forall|k: int| 0 <= k < i ==> #[trigger] types[k]@ == type_text(formulas[k]@),
                decreases formulas.len() - i,
            {
                types.push(self.generate(&formulas[i]));
                i = i + 1;
            }
            assert(views(types@) =~= type_text_each(formula_views(formulas@)));
            glue3("(", join_strings(&types, ", ").as_str(), ")")
        }
    }
}

} // verus!
