//! A workbench for propositional linear logic: formulas, sequents, focused
//! proof search, term extraction and code generation.

pub mod ascii;
pub mod cache;
pub mod codegen;
pub mod extract;
pub mod formula;
pub mod linearity;
pub mod parse;
pub mod proof_tree;
pub mod prover;
pub mod roundtrip;
pub mod search;
pub mod sequent;
pub mod soundness;
pub mod splits;
pub mod steps;
pub mod term;
pub mod text;
pub mod types;
pub mod viz;

pub use codegen::{PRELUDE, RustCodegen, generate_function, generate_module};
pub use extract::{Extractor, extract_term, is_well_formed, normalize};
pub use formula::{Formula, FormulaView};
pub use parse::{ParseError, parse_formula, parse_sequent};
pub use proof_tree::{Proof, ProofView, Rule, RuleView};
pub use prover::{FocusedProver, Prover, ProverStats};
pub use sequent::{Sequent, SequentView, TwoSidedSequent, TwoSidedSequentView};
pub use term::{Term, TermView};
pub use types::TypeGenerator;
