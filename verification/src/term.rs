//! Linear λ-terms: the computational content of proofs.

use vstd::prelude::*;
use vstd::hash_set::StringHashSet;
use vstd::string::{StrSliceExecFns, StringExecFns};
use crate::text::{glue2, glue3, glue5, repeat_str};

verus! {

/// A linear λ-term.
#[derive(Debug, Eq)]
pub enum Term {
    /// Variable reference
    Var(String),
    /// Unit value ()
    Unit,
    /// Pair (a, b)
    Pair(Box<Term>, Box<Term>),
    /// Let pair: let (x, y) = e in e'
    LetPair(String, String, Box<Term>, Box<Term>),
    /// Abstraction: λx. e
    Abs(String, Box<Term>),
    /// Application: e e'
    App(Box<Term>, Box<Term>),
    /// Left injection: inl e
    Inl(Box<Term>),
    /// Right injection: inr e
    Inr(Box<Term>),
    /// Case analysis: case e of inl x => e1 | inr y => e2
    Case(Box<Term>, String, Box<Term>, String, Box<Term>),
    /// Trivial value (the unit of &)
    Trivial,
    /// First projection: fst e
    Fst(Box<Term>),
    /// Second projection: snd e
    Snd(Box<Term>),
    /// Abort (for 0): absurd e
    Abort(Box<Term>),
    /// Promote: !e
    Promote(Box<Term>),
    /// Derelict: use !e as e
    Derelict(Box<Term>),
    /// Discard: discard e in e'
    Discard(Box<Term>, Box<Term>),
    /// Copy: copy e as (x, y) in e'
    Copy(Box<Term>, String, String, Box<Term>),
}

/// The mathematical value of a [`Term`]: the same tree, with each name as a
/// sequence of characters.
pub ghost enum TermView {
    Var(Seq<char>),
    Unit,
    Pair(Box<TermView>, Box<TermView>),
    LetPair(Seq<char>, Seq<char>, Box<TermView>, Box<TermView>),
    Abs(Seq<char>, Box<TermView>),
    App(Box<TermView>, Box<TermView>),
    Inl(Box<TermView>),
    Inr(Box<TermView>),
    Case(Box<TermView>, Seq<char>, Box<TermView>, Seq<char>, Box<TermView>),
    Trivial,
    Fst(Box<TermView>),
    Snd(Box<TermView>),
    Abort(Box<TermView>),
    Promote(Box<TermView>),
    Derelict(Box<TermView>),
    Discard(Box<TermView>, Box<TermView>),
    Copy(Box<TermView>, Seq<char>, Seq<char>, Box<TermView>),
}

impl Term {
    /// The mathematical value of the term.
    pub open spec fn model(&self) -> TermView
        decreases self,
    {
        match self {
            Term::Var(v) => TermView::Var(v@),
            Term::Unit => TermView::Unit,
            Term::Pair(a, b) => TermView::Pair(Box::new(a.model()), Box::new(b.model())),
            Term::LetPair(x, y, e, body) => TermView::LetPair(
                x@,
                y@,
                Box::new(e.model()),
                Box::new(body.model()),
            ),
            Term::Abs(x, body) => TermView::Abs(x@, Box::new(body.model())),
            Term::App(f, a) => TermView::App(Box::new(f.model()), Box::new(a.model())),
            Term::Inl(e) => TermView::Inl(Box::new(e.model())),
            Term::Inr(e) => TermView::Inr(Box::new(e.model())),
            Term::Case(s, x, l, y, r) => TermView::Case(
                Box::new(s.model()),
                x@,
                Box::new(l.model()),
                y@,
                Box::new(r.model()),
            ),
            Term::Trivial => TermView::Trivial,
            Term::Fst(e) => TermView::Fst(Box::new(e.model())),
            Term::Snd(e) => TermView::Snd(Box::new(e.model())),
            Term::Abort(e) => TermView::Abort(Box::new(e.model())),
            Term::Promote(e) => TermView::Promote(Box::new(e.model())),
            Term::Derelict(e) => TermView::Derelict(Box::new(e.model())),
            Term::Discard(d, body) => TermView::Discard(
                Box::new(d.model()),
                Box::new(body.model()),
            ),
            Term::Copy(src, x, y, body) => TermView::Copy(
                Box::new(src.model()),
                x@,
                y@,
                Box::new(body.model()),
            ),
        }
    }
}

impl View for Term {
    type V = TermView;

    open spec fn view(&self) -> TermView {
        self.model()
    }
}

impl TermView {
    /// The variables that occur free in the term. A binder takes its
    /// variable out of what is free in the body that it binds.
    pub open spec fn free_vars(self) -> Set<Seq<char>>
        decreases self,
    {
        match self {
            TermView::Var(v) => set![v],
            TermView::Unit => Set::empty(),
            TermView::Trivial => Set::empty(),
            TermView::Pair(a, b) => a.free_vars().union(b.free_vars()),
            TermView::App(a, b) => a.free_vars().union(b.free_vars()),
            TermView::LetPair(x, y, e, body) => e.free_vars().union(
                body.free_vars().remove(x).remove(y),
            ),
            TermView::Abs(x, body) => body.free_vars().remove(x),
            TermView::Inl(e) => e.free_vars(),
            TermView::Inr(e) => e.free_vars(),
            TermView::Fst(e) => e.free_vars(),
            TermView::Snd(e) => e.free_vars(),
            TermView::Abort(e) => e.free_vars(),
            TermView::Case(s, x, l, y, r) => s.free_vars().union(l.free_vars().remove(x)).union(
                r.free_vars().remove(y),
            ),
            TermView::Promote(e) => e.free_vars(),
            TermView::Derelict(e) => e.free_vars(),
            TermView::Discard(d, body) => d.free_vars().union(body.free_vars()),
            TermView::Copy(src, x, y, body) => src.free_vars().union(
                body.free_vars().remove(x).remove(y),
            ),
        }
    }

    /// The term with `replacement` put in the place of each free occurrence
    /// of `var`, as it stands: under a binder of `var` itself nothing is
    /// replaced, and no binder is renamed, so a binder of a variable that is
    /// free in `replacement` captures it. This is the step that
    /// [`TermView::substitute`] takes once it has renamed such binders.
    pub open spec fn put(self, var: Seq<char>, replacement: TermView) -> TermView
        decreases self,
    {
        match self {
            TermView::Var(v) => if v == var {
                replacement
            } else {
                self
            },
            TermView::Unit => self,
            TermView::Trivial => self,
            TermView::Pair(a, b) => TermView::Pair(
                Box::new(a.put(var, replacement)),
                Box::new(b.put(var, replacement)),
            ),
            TermView::LetPair(x, y, e, body) => TermView::LetPair(
                x,
                y,
                Box::new(e.put(var, replacement)),
                if x == var || y == var {
                    body
                } else {
                    Box::new(body.put(var, replacement))
                },
            ),
            TermView::Abs(x, body) => if x == var {
                self
            } else {
                TermView::Abs(x, Box::new(body.put(var, replacement)))
            },
            TermView::App(f, a) => TermView::App(
                Box::new(f.put(var, replacement)),
                Box::new(a.put(var, replacement)),
            ),
            TermView::Inl(e) => TermView::Inl(Box::new(e.put(var, replacement))),
            TermView::Inr(e) => TermView::Inr(Box::new(e.put(var, replacement))),
            TermView::Case(s, x, l, y, r) => TermView::Case(
                Box::new(s.put(var, replacement)),
                x,
                if x == var {
                    l
                } else {
                    Box::new(l.put(var, replacement))
                },
                y,
                if y == var {
                    r
                } else {
                    Box::new(r.put(var, replacement))
                },
            ),
            TermView::Fst(e) => TermView::Fst(Box::new(e.put(var, replacement))),
            TermView::Snd(e) => TermView::Snd(Box::new(e.put(var, replacement))),
            TermView::Abort(e) => TermView::Abort(Box::new(e.put(var, replacement))),
            TermView::Promote(e) => TermView::Promote(Box::new(e.put(var, replacement))),
            TermView::Derelict(e) => TermView::Derelict(Box::new(e.put(var, replacement))),
            TermView::Discard(d, body) => TermView::Discard(
                Box::new(d.put(var, replacement)),
                Box::new(body.put(var, replacement)),
            ),
            TermView::Copy(src, x, y, body) => TermView::Copy(
                Box::new(src.put(var, replacement)),
                x,
                y,
                if x == var || y == var {
                    body
                } else {
                    Box::new(body.put(var, replacement))
                },
            ),
        }
    }

    /// The number of constructors of the term.
    pub open spec fn size(self) -> nat
        decreases self,
    {
        match self {
            TermView::Var(_) => 1,
            TermView::Unit => 1,
            TermView::Trivial => 1,
            TermView::Pair(a, b) => 1 + a.size() + b.size(),
            TermView::LetPair(_, _, e, body) => 1 + e.size() + body.size(),
            TermView::Abs(_, body) => 1 + body.size(),
            TermView::App(f, a) => 1 + f.size() + a.size(),
            TermView::Inl(e) => 1 + e.size(),
            TermView::Inr(e) => 1 + e.size(),
            TermView::Case(s, _, l, _, r) => 1 + s.size() + l.size() + r.size(),
            TermView::Fst(e) => 1 + e.size(),
            TermView::Snd(e) => 1 + e.size(),
            TermView::Abort(e) => 1 + e.size(),
            TermView::Promote(e) => 1 + e.size(),
            TermView::Derelict(e) => 1 + e.size(),
            TermView::Discard(d, body) => 1 + d.size() + body.size(),
            TermView::Copy(src, _, _, body) => 1 + src.size() + body.size(),
        }
    }

    /// The length of the longest name in the term, of a variable or of a
    /// binder; 0 where the term holds no name.
    pub open spec fn longest(self) -> nat
        decreases self,
    {
        match self {
            TermView::Var(v) => v.len(),
            TermView::Unit => 0,
            TermView::Trivial => 0,
            TermView::Pair(a, b) => longer(a.longest(), b.longest()),
            TermView::LetPair(x, y, e, body) => longer(
                longer(x.len(), y.len()),
                longer(e.longest(), body.longest()),
            ),
            TermView::Abs(x, body) => longer(x.len(), body.longest()),
            TermView::App(f, a) => longer(f.longest(), a.longest()),
            TermView::Inl(e) => e.longest(),
            TermView::Inr(e) => e.longest(),
            TermView::Case(s, x, l, y, r) => longer(
                longer(x.len(), y.len()),
                longer(s.longest(), longer(l.longest(), r.longest())),
            ),
            TermView::Fst(e) => e.longest(),
            TermView::Snd(e) => e.longest(),
            TermView::Abort(e) => e.longest(),
            TermView::Promote(e) => e.longest(),
            TermView::Derelict(e) => e.longest(),
            TermView::Discard(d, body) => longer(d.longest(), body.longest()),
            TermView::Copy(src, x, y, body) => longer(
                longer(x.len(), y.len()),
                longer(src.longest(), body.longest()),
            ),
        }
    }

    /// The term with `replacement` in place of each free occurrence of
    /// `var`, without capture. Under a binder of `var` itself nothing is
    /// replaced. A binder of a variable that is free in `replacement`, over a
    /// body in which `var` is free, would capture that variable: it is
    /// renamed first, with its body, to a name that occurs in neither (see
    /// [`clear_name`]). So the free variables of the result are those of the
    /// term without `var`, and those of `replacement` if `var` was free.
    pub open spec fn substitute(self, var: Seq<char>, replacement: TermView) -> TermView
        decreases self.size(),
    {
        match self {
            TermView::Var(v) => if v == var {
                replacement
            } else {
                self
            },
            TermView::Unit => self,
            TermView::Trivial => self,
            TermView::Pair(a, b) => TermView::Pair(
                Box::new(a.substitute(var, replacement)),
                Box::new(b.substitute(var, replacement)),
            ),
            TermView::LetPair(x, y, e, body) => {
                let first = clear_name(x, *body, var, replacement, y);
                let inner = clear_body(x, *body, var, replacement, y);
                let second = clear_name(y, inner, var, replacement, first);
                let innermost = clear_body(y, inner, var, replacement, first);
                proof {
                    lemma_clearing_keeps_size(x, *body, var, replacement, y);
                    lemma_clearing_keeps_size(y, inner, var, replacement, first);
                }
                if x == var || y == var {
                    TermView::LetPair(x, y, Box::new(e.substitute(var, replacement)), body)
                } else {
                    TermView::LetPair(
                        first,
                        second,
                        Box::new(e.substitute(var, replacement)),
                        Box::new(innermost.substitute(var, replacement)),
                    )
                }
            },
            TermView::Abs(x, body) => {
                proof {
                    lemma_clearing_keeps_size(x, *body, var, replacement, x);
                }
                if x == var {
                    self
                } else {
                    TermView::Abs(
                        clear_name(x, *body, var, replacement, x),
                        Box::new(
                            clear_body(x, *body, var, replacement, x).substitute(
                                var,
                                replacement,
                            ),
                        ),
                    )
                }
            },
            TermView::App(f, a) => TermView::App(
                Box::new(f.substitute(var, replacement)),
                Box::new(a.substitute(var, replacement)),
            ),
            TermView::Inl(e) => TermView::Inl(Box::new(e.substitute(var, replacement))),
            TermView::Inr(e) => TermView::Inr(Box::new(e.substitute(var, replacement))),
            TermView::Case(s, x, l, y, r) => {
                proof {
                    lemma_clearing_keeps_size(x, *l, var, replacement, x);
                    lemma_clearing_keeps_size(y, *r, var, replacement, y);
                }
                TermView::Case(
                    Box::new(s.substitute(var, replacement)),
                    if x == var {
                        x
                    } else {
                        clear_name(x, *l, var, replacement, x)
                    },
                    if x == var {
                        l
                    } else {
                        Box::new(
                            clear_body(x, *l, var, replacement, x).substitute(var, replacement),
                        )
                    },
                    if y == var {
                        y
                    } else {
                        clear_name(y, *r, var, replacement, y)
                    },
                    if y == var {
                        r
                    } else {
                        Box::new(
                            clear_body(y, *r, var, replacement, y).substitute(var, replacement),
                        )
                    },
                )
            },
            TermView::Fst(e) => TermView::Fst(Box::new(e.substitute(var, replacement))),
            TermView::Snd(e) => TermView::Snd(Box::new(e.substitute(var, replacement))),
            TermView::Abort(e) => TermView::Abort(Box::new(e.substitute(var, replacement))),
            TermView::Promote(e) => TermView::Promote(Box::new(e.substitute(var, replacement))),
            TermView::Derelict(e) => TermView::Derelict(Box::new(e.substitute(var, replacement))),
            TermView::Discard(d, body) => TermView::Discard(
                Box::new(d.substitute(var, replacement)),
                Box::new(body.substitute(var, replacement)),
            ),
            TermView::Copy(src, x, y, body) => {
                let first = clear_name(x, *body, var, replacement, y);
                let inner = clear_body(x, *body, var, replacement, y);
                let second = clear_name(y, inner, var, replacement, first);
                let innermost = clear_body(y, inner, var, replacement, first);
                proof {
                    lemma_clearing_keeps_size(x, *body, var, replacement, y);
                    lemma_clearing_keeps_size(y, inner, var, replacement, first);
                }
                if x == var || y == var {
                    TermView::Copy(Box::new(src.substitute(var, replacement)), x, y, body)
                } else {
                    TermView::Copy(
                        Box::new(src.substitute(var, replacement)),
                        first,
                        second,
                        Box::new(innermost.substitute(var, replacement)),
                    )
                }
            },
        }
    }

    /// The term in the notation of the λ-calculus.
    pub open spec fn pretty(self) -> Seq<char>
        decreases self,
    {
        match self {
            TermView::Var(v) => v,
            TermView::Unit => "()"@,
            TermView::Trivial => "⟨⟩"@,
            TermView::Pair(a, b) => "("@ + a.pretty() + ", "@ + b.pretty() + ")"@,
            TermView::LetPair(x, y, e, body) => "let ("@ + x + ", "@ + y + ") = "@ + e.pretty()
                + " in "@ + body.pretty(),
            TermView::Abs(x, body) => "λ"@ + x + ". "@ + body.pretty(),
            TermView::App(f, a) => "("@ + f.pretty() + " "@ + a.pretty() + ")"@,
            TermView::Inl(e) => "inl "@ + e.pretty(),
            TermView::Inr(e) => "inr "@ + e.pretty(),
            TermView::Case(s, x, l, y, r) => "case "@ + s.pretty() + " of { inl "@ + x + " => "@
                + l.pretty() + " | inr "@ + y + " => "@ + r.pretty() + " }"@,
            TermView::Fst(e) => "fst "@ + e.pretty(),
            TermView::Snd(e) => "snd "@ + e.pretty(),
            TermView::Abort(e) => "absurd "@ + e.pretty(),
            TermView::Promote(e) => "!"@ + e.pretty(),
            TermView::Derelict(e) => "derelict "@ + e.pretty(),
            TermView::Discard(_, body) => "discard in "@ + body.pretty(),
            TermView::Copy(src, x, y, body) => "copy "@ + src.pretty() + " as ("@ + x + ", "@ + y
                + ") in "@ + body.pretty(),
        }
    }
}

/// The greater of two lengths.
pub open spec fn longer(a: nat, b: nat) -> nat {
    if a >= b {
        a
    } else {
        b
    }
}

/// A name made of `x` and underscores that is longer than `bound`, and
/// longer than `x`.
pub open spec fn fresh_binder(x: Seq<char>, bound: nat) -> Seq<char> {
    x + crate::text::repeat("_"@, (longer(x.len(), bound) - x.len()) as nat) + "_"@
}

/// Whether the binder `x` over `body` would capture a variable when
/// `replacement` is put for `var`: `x` is free in `replacement`, and `var`
/// is free in `body`.
pub open spec fn clashes(x: Seq<char>, body: TermView, var: Seq<char>, replacement: TermView) -> bool {
    replacement.free_vars().contains(x) && body.free_vars().contains(var)
}

/// The length that a fresh name for a binder over `body` must go beyond:
/// that of every name in `body` and in `replacement`, of `var` and of
/// `other`, a second binder of the same body.
pub open spec fn name_bound(
    body: TermView,
    var: Seq<char>,
    replacement: TermView,
    other: Seq<char>,
) -> nat {
    longer(longer(body.longest(), replacement.longest()), longer(var.len(), other.len()))
}

/// The name of the binder `x` over `body` when `replacement` is to be put
/// for `var`: `x` itself where it captures nothing, else a fresh name,
/// longer than every name in `body` and `replacement`, than `var` and than
/// `other`.
pub open spec fn clear_name(
    x: Seq<char>,
    body: TermView,
    var: Seq<char>,
    replacement: TermView,
    other: Seq<char>,
) -> Seq<char> {
    if clashes(x, body, var, replacement) {
        fresh_binder(x, name_bound(body, var, replacement, other))
    } else {
        x
    }
}

/// The body under the binder `x` when `replacement` is to be put for
/// `var`: `body` itself where `x` captures nothing, else `body` with the
/// fresh name of the binder for `x`.
pub open spec fn clear_body(
    x: Seq<char>,
    body: TermView,
    var: Seq<char>,
    replacement: TermView,
    other: Seq<char>,
) -> TermView {
    if clashes(x, body, var, replacement) {
        body.put(x, TermView::Var(fresh_binder(x, name_bound(body, var, replacement, other))))
    } else {
        body
    }
}

/// Putting a variable for a variable keeps the number of constructors.
pub proof fn lemma_put_var_keeps_size(t: TermView, x: Seq<char>, y: Seq<char>)
    ensures
        t.put(x, TermView::Var(y)).size() == t.size(),
    decreases t,
{
    match t {
        TermView::Pair(a, b) => {
            lemma_put_var_keeps_size(*a, x, y);
            lemma_put_var_keeps_size(*b, x, y);
        },
        TermView::App(a, b) => {
            lemma_put_var_keeps_size(*a, x, y);
            lemma_put_var_keeps_size(*b, x, y);
        },
        TermView::Discard(a, b) => {
            lemma_put_var_keeps_size(*a, x, y);
            lemma_put_var_keeps_size(*b, x, y);
        },
        TermView::LetPair(_, _, e, body) => {
            lemma_put_var_keeps_size(*e, x, y);
            lemma_put_var_keeps_size(*body, x, y);
        },
        TermView::Copy(e, _, _, body) => {
            lemma_put_var_keeps_size(*e, x, y);
            lemma_put_var_keeps_size(*body, x, y);
        },
        TermView::Abs(_, body) => {
            lemma_put_var_keeps_size(*body, x, y);
        },
        TermView::Inl(e) => {
            lemma_put_var_keeps_size(*e, x, y);
        },
        TermView::Inr(e) => {
            lemma_put_var_keeps_size(*e, x, y);
        },
        TermView::Fst(e) => {
            lemma_put_var_keeps_size(*e, x, y);
        },
        TermView::Snd(e) => {
            lemma_put_var_keeps_size(*e, x, y);
        },
        TermView::Abort(e) => {
            lemma_put_var_keeps_size(*e, x, y);
        },
        TermView::Promote(e) => {
            lemma_put_var_keeps_size(*e, x, y);
        },
        TermView::Derelict(e) => {
            lemma_put_var_keeps_size(*e, x, y);
        },
        TermView::Case(s, _, l, _, r) => {
            lemma_put_var_keeps_size(*s, x, y);
            lemma_put_var_keeps_size(*l, x, y);
            lemma_put_var_keeps_size(*r, x, y);
        },
        _ => {},
    }
}

/// Clearing a binder keeps the number of constructors of its body.
pub proof fn lemma_clearing_keeps_size(
    x: Seq<char>,
    body: TermView,
    var: Seq<char>,
    replacement: TermView,
    other: Seq<char>,
)
    ensures
        clear_body(x, body, var, replacement, other).size() == body.size(),
{
    lemma_put_var_keeps_size(
        body,
        x,
        fresh_binder(x, name_bound(body, var, replacement, other)),
    );
}

/// The texts that the list of names holds.
pub open spec fn name_set(names: Seq<String>) -> Set<Seq<char>> {
    Set::new(|s: Seq<char>| exists|i: int| 0 <= i < names.len() && #[trigger] names[i]@ == s)
}

/// Tells whether the list holds the name.
fn holds_name(names: &Vec<String>, name: &String) -> (r: bool)
    ensures
        r == name_set(names@).contains(name@),
{
    let mut i: usize = 0;
    while i < names.len()
        invariant
            i <= names.len(),
            forall|k: int| 0 <= k < i ==> #[trigger] names[k]@ != name@,
        decreases names.len() - i,
    {
        if names[i] == *name {
            return true;
        }
        i = i + 1;
    }
    false
}

/// The list with one more name.
fn with_name(names: &Vec<String>, name: &String) -> (r: Vec<String>)
    ensures
        name_set(r@) == name_set(names@).insert(name@),
{
    let mut out: Vec<String> = Vec::new();
    let mut i: usize = 0;
    while i < names.len()
        invariant
            i <= names.len(),
            out.len() == i,
            forall|k: int| 0 <= k < i ==> #[trigger] out[k]@ == names[k]@,
        decreases names.len() - i,
    {
        out.push(names[i].clone());
        i = i + 1;
    }
    out.push(name.clone());
    assert forall|s: Seq<char>| name_set(out@).contains(s) == name_set(names@).insert(
        name@,
    ).contains(s) by {
        if name_set(out@).contains(s) {
            let i = choose|i: int| 0 <= i < out.len() && #[trigger] out[i]@ == s;
            if i < names.len() {
                assert(names[i]@ == s);
            }
        }
        if name_set(names@).contains(s) {
            let i = choose|i: int| 0 <= i < names.len() && #[trigger] names[i]@ == s;
            assert(out[i]@ == s);
        }
        if s == name@ {
            assert(out[names.len() as int]@ == s);
        }
    }
    assert(name_set(out@) =~= name_set(names@).insert(name@));
    out
}

impl PartialEq for Term {
    fn eq(&self, other: &Term) -> (r: bool) {
        self.same(other)
    }
}

impl vstd::std_specs::cmp::PartialEqSpecImpl for Term {
    open spec fn obeys_eq_spec() -> bool {
        true
    }

    open spec fn eq_spec(&self, other: &Term) -> bool {
        self@ == other@
    }
}

/// The larger of two lengths.
fn larger(a: usize, b: usize) -> (r: usize)
    ensures
        r as nat == longer(a as nat, b as nat),
{
    if a >= b {
        a
    } else {
        b
    }
}

/// Makes a name of `x` and underscores that is longer than `bound`.
fn fresh_binder_for(x: &String, bound: usize) -> (r: String)
    ensures
        r@ == fresh_binder(x@, bound as nat),
{
    let width = x.as_str().unicode_len();
    let pad = if bound > width {
        bound - width
    } else {
        0
    };
    glue3(x.as_str(), repeat_str("_", pad).as_str(), "_")
}

/// The binder `x` and its body, cleared for putting `replacement` for
/// `var`: renamed to a fresh name where the binder would capture a variable
/// of `replacement`, else as they are.
fn cleared(x: &String, body: &Term, var: &String, replacement: &Term, other: &String) -> (r: (
    String,
    Term,
))
    ensures
        r.0@ == clear_name(x@, body@, var@, replacement@, other@),
        r.1@ == clear_body(x@, body@, var@, replacement@, other@),
{
    if replacement.occurs_free(x) && body.occurs_free(var) {
        let bound = larger(
            larger(body.longest_name(), replacement.longest_name()),
            larger(var.as_str().unicode_len(), other.as_str().unicode_len()),
        );
        let name = fresh_binder_for(x, bound);
        let renamed = body.put_name(x, &Term::Var(name.clone()));
        (name, renamed)
    } else {
        (x.clone(), body.clone())
    }
}

impl Clone for Term {
    fn clone(&self) -> (r: Self)
        ensures
            r@ == self@,
        decreases self,
    {
        match self {
            Term::Var(v) => Term::Var(v.clone()),
            Term::Unit => Term::Unit,
            Term::Pair(a, b) => Term::Pair(Box::new((**a).clone()), Box::new((**b).clone())),
            Term::LetPair(x, y, e, body) => Term::LetPair(
                x.clone(),
                y.clone(),
                Box::new((**e).clone()),
                Box::new((**body).clone()),
            ),
            Term::Abs(x, body) => Term::Abs(x.clone(), Box::new((**body).clone())),
            Term::App(f, a) => Term::App(Box::new((**f).clone()), Box::new((**a).clone())),
            Term::Inl(e) => Term::Inl(Box::new((**e).clone())),
            Term::Inr(e) => Term::Inr(Box::new((**e).clone())),
            Term::Case(s, x, l, y, r) => Term::Case(
                Box::new((**s).clone()),
                x.clone(),
                Box::new((**l).clone()),
                y.clone(),
                Box::new((**r).clone()),
            ),
            Term::Trivial => Term::Trivial,
            Term::Fst(e) => Term::Fst(Box::new((**e).clone())),
            Term::Snd(e) => Term::Snd(Box::new((**e).clone())),
            Term::Abort(e) => Term::Abort(Box::new((**e).clone())),
            Term::Promote(e) => Term::Promote(Box::new((**e).clone())),
            Term::Derelict(e) => Term::Derelict(Box::new((**e).clone())),
            Term::Discard(d, body) => Term::Discard(
                Box::new((**d).clone()),
                Box::new((**body).clone()),
            ),
            Term::Copy(src, x, y, body) => Term::Copy(
                Box::new((**src).clone()),
                x.clone(),
                y.clone(),
                Box::new((**body).clone()),
            ),
        }
    }
}

impl Term {
    /// Tells whether two terms are the same, constructor by constructor and
    /// name by name.
    pub fn same(&self, other: &Term) -> (r: bool)
        ensures
            r == (self@ == other@),
        decreases self,
    {
        match (self, other) {
            (Term::Var(a), Term::Var(b)) => *a == *b,
            (Term::Unit, Term::Unit) => true,
            (Term::Trivial, Term::Trivial) => true,
            (Term::Pair(a, b), Term::Pair(c, d)) => a.same(c) && b.same(d),
            (Term::App(a, b), Term::App(c, d)) => a.same(c) && b.same(d),
            (Term::Discard(a, b), Term::Discard(c, d)) => a.same(c) && b.same(d),
            (Term::LetPair(x, y, e, body), Term::LetPair(x2, y2, e2, body2)) => *x == *x2 && *y
                == *y2 && e.same(e2) && body.same(body2),
            (Term::Copy(e, x, y, body), Term::Copy(e2, x2, y2, body2)) => *x == *x2 && *y == *y2
                && e.same(e2) && body.same(body2),
            (Term::Abs(x, body), Term::Abs(x2, body2)) => *x == *x2 && body.same(body2),
            (Term::Inl(a), Term::Inl(b)) => a.same(b),
            (Term::Inr(a), Term::Inr(b)) => a.same(b),
            (Term::Fst(a), Term::Fst(b)) => a.same(b),
            (Term::Snd(a), Term::Snd(b)) => a.same(b),
            (Term::Abort(a), Term::Abort(b)) => a.same(b),
            (Term::Promote(a), Term::Promote(b)) => a.same(b),
            (Term::Derelict(a), Term::Derelict(b)) => a.same(b),
            (Term::Case(s, x, l, y, r), Term::Case(s2, x2, l2, y2, r2)) => *x == *x2 && *y == *y2
                && s.same(s2) && l.same(l2) && r.same(r2),
            _ => false,
        }
    }

    /// Adds to `acc` the free variables of the term that are not among
    /// `bound`.
    fn collect_free(&self, bound: &Vec<String>, acc: &mut StringHashSet)
        ensures
            final(acc)@ == old(acc)@.union(self@.free_vars().difference(name_set(bound@))),
        decreases self,
    {
        let ghost before = acc@;
        let ghost hidden = name_set(bound@);
        match self {
            Term::Var(v) => {
                if !holds_name(bound, v) {
                    acc.insert(v.clone());
                }
                assert(acc@ =~= before.union(self@.free_vars().difference(hidden)));
            },
            Term::Unit => {
                assert(acc@ =~= before.union(self@.free_vars().difference(hidden)));
            },
            Term::Trivial => {
                assert(acc@ =~= before.union(self@.free_vars().difference(hidden)));
            },
            Term::Pair(a, b) => {
                a.collect_free(bound, acc);
                b.collect_free(bound, acc);
                assert(acc@ =~= before.union(self@.free_vars().difference(hidden)));
            },
            Term::App(a, b) => {
                a.collect_free(bound, acc);
                b.collect_free(bound, acc);
                assert(acc@ =~= before.union(self@.free_vars().difference(hidden)));
            },
            Term::LetPair(x, y, e, body) => {
                e.collect_free(bound, acc);
                let inner = with_name(&with_name(bound, x), y);
                body.collect_free(&inner, acc);
                assert(acc@ =~= before.union(self@.free_vars().difference(hidden)));
            },
            Term::Abs(x, body) => {
                let inner = with_name(bound, x);
                body.collect_free(&inner, acc);
                assert(acc@ =~= before.union(self@.free_vars().difference(hidden)));
            },
            Term::Inl(e) => {
                e.collect_free(bound, acc);
            },
            Term::Inr(e) => {
                e.collect_free(bound, acc);
            },
            Term::Fst(e) => {
                e.collect_free(bound, acc);
            },
            Term::Snd(e) => {
                e.collect_free(bound, acc);
            },
            Term::Abort(e) => {
                e.collect_free(bound, acc);
            },
            Term::Case(s, x, l, y, r) => {
                s.collect_free(bound, acc);
                let left_bound = with_name(bound, x);
                l.collect_free(&left_bound, acc);
                let right_bound = with_name(bound, y);
                r.collect_free(&right_bound, acc);
                assert(acc@ =~= before.union(self@.free_vars().difference(hidden)));
            },
            Term::Promote(e) => {
                e.collect_free(bound, acc);
            },
            Term::Derelict(e) => {
                e.collect_free(bound, acc);
            },
            Term::Discard(d, body) => {
                d.collect_free(bound, acc);
                body.collect_free(bound, acc);
                assert(acc@ =~= before.union(self@.free_vars().difference(hidden)));
            },
            Term::Copy(src, x, y, body) => {
                src.collect_free(bound, acc);
                let inner = with_name(&with_name(bound, x), y);
                body.collect_free(&inner, acc);
                assert(acc@ =~= before.union(self@.free_vars().difference(hidden)));
            },
        }
    }

    /// Computes the free variables of the term.
    pub fn free_vars(&self) -> (r: StringHashSet)
        ensures
            r@ == self@.free_vars(),
    {
        let mut acc = StringHashSet::new();
        let bound: Vec<String> = Vec::new();
        assert(name_set(bound@) =~= Set::empty());
        self.collect_free(&bound, &mut acc);
        assert(acc@ =~= self@.free_vars());
        acc
    }

    /// Puts `replacement` in the place of the free occurrences of the
    /// variable `var`, as it stands, without renaming a binder.
    fn put_name(&self, var: &String, replacement: &Term) -> (r: Term)
        ensures
            r@ == self@.put(var@, replacement@),
        decreases self,
    {
        match self {
            Term::Var(v) => if *v == *var {
                replacement.clone()
            } else {
                Term::Var(v.clone())
            },
            Term::Unit => Term::Unit,
            Term::Trivial => Term::Trivial,
            Term::Pair(a, b) => Term::Pair(
                Box::new(a.put_name(var, replacement)),
                Box::new(b.put_name(var, replacement)),
            ),
            Term::LetPair(x, y, e, body) => {
                let new_e = e.put_name(var, replacement);
                let new_body = if *x == *var || *y == *var {
                    (**body).clone()
                } else {
                    body.put_name(var, replacement)
                };
                Term::LetPair(x.clone(), y.clone(), Box::new(new_e), Box::new(new_body))
            },
            Term::Abs(x, body) => if *x == *var {
                Term::Abs(x.clone(), Box::new((**body).clone()))
            } else {
                Term::Abs(x.clone(), Box::new(body.put_name(var, replacement)))
            },
            Term::App(f, a) => Term::App(
                Box::new(f.put_name(var, replacement)),
                Box::new(a.put_name(var, replacement)),
            ),
            Term::Inl(e) => Term::Inl(Box::new(e.put_name(var, replacement))),
            Term::Inr(e) => Term::Inr(Box::new(e.put_name(var, replacement))),
            Term::Case(s, x, l, y, r) => {
                let new_s = s.put_name(var, replacement);
                let new_l = if *x == *var {
                    (**l).clone()
                } else {
                    l.put_name(var, replacement)
                };
                let new_r = if *y == *var {
                    (**r).clone()
                } else {
                    r.put_name(var, replacement)
                };
                Term::Case(
                    Box::new(new_s),
                    x.clone(),
                    Box::new(new_l),
                    y.clone(),
                    Box::new(new_r),
                )
            },
            Term::Fst(e) => Term::Fst(Box::new(e.put_name(var, replacement))),
            Term::Snd(e) => Term::Snd(Box::new(e.put_name(var, replacement))),
            Term::Abort(e) => Term::Abort(Box::new(e.put_name(var, replacement))),
            Term::Promote(e) => Term::Promote(Box::new(e.put_name(var, replacement))),
            Term::Derelict(e) => Term::Derelict(Box::new(e.put_name(var, replacement))),
            Term::Discard(d, body) => Term::Discard(
                Box::new(d.put_name(var, replacement)),
                Box::new(body.put_name(var, replacement)),
            ),
            Term::Copy(src, x, y, body) => {
                let new_src = src.put_name(var, replacement);
                let new_body = if *x == *var || *y == *var {
                    (**body).clone()
                } else {
                    body.put_name(var, replacement)
                };
                Term::Copy(Box::new(new_src), x.clone(), y.clone(), Box::new(new_body))
            },
        }
    }

    /// Tells whether the variable occurs free in the term.
    pub fn occurs_free(&self, name: &String) -> (r: bool)
        ensures
            r == self@.free_vars().contains(name@),
        decreases self,
    {
        match self {
            Term::Var(v) => *v == *name,
            Term::Unit => false,
            Term::Trivial => false,
            Term::Pair(a, b) => a.occurs_free(name) || b.occurs_free(name),
            Term::App(a, b) => a.occurs_free(name) || b.occurs_free(name),
            Term::Discard(a, b) => a.occurs_free(name) || b.occurs_free(name),
            Term::LetPair(x, y, e, body) => e.occurs_free(name) || (!(*x == *name) && !(*y
                == *name) && body.occurs_free(name)),
            Term::Copy(e, x, y, body) => e.occurs_free(name) || (!(*x == *name) && !(*y == *name)
                && body.occurs_free(name)),
            Term::Abs(x, body) => !(*x == *name) && body.occurs_free(name),
            Term::Inl(e) => e.occurs_free(name),
            Term::Inr(e) => e.occurs_free(name),
            Term::Fst(e) => e.occurs_free(name),
            Term::Snd(e) => e.occurs_free(name),
            Term::Abort(e) => e.occurs_free(name),
            Term::Promote(e) => e.occurs_free(name),
            Term::Derelict(e) => e.occurs_free(name),
            Term::Case(s, x, l, y, r) => s.occurs_free(name) || (!(*x == *name) && l.occurs_free(
                name,
            )) || (!(*y == *name) && r.occurs_free(name)),
        }
    }

    /// Measures the longest name in the term.
    pub fn longest_name(&self) -> (r: usize)
        ensures
            r as nat == self@.longest(),
        decreases self,
    {
        match self {
            Term::Var(v) => v.as_str().unicode_len(),
            Term::Unit => 0,
            Term::Trivial => 0,
            Term::Pair(a, b) => larger(a.longest_name(), b.longest_name()),
            Term::LetPair(x, y, e, body) => larger(
                larger(x.as_str().unicode_len(), y.as_str().unicode_len()),
                larger(e.longest_name(), body.longest_name()),
            ),
            Term::Abs(x, body) => larger(x.as_str().unicode_len(), body.longest_name()),
            Term::App(f, a) => larger(f.longest_name(), a.longest_name()),
            Term::Inl(e) => e.longest_name(),
            Term::Inr(e) => e.longest_name(),
            Term::Case(s, x, l, y, r) => larger(
                larger(x.as_str().unicode_len(), y.as_str().unicode_len()),
                larger(s.longest_name(), larger(l.longest_name(), r.longest_name())),
            ),
            Term::Fst(e) => e.longest_name(),
            Term::Snd(e) => e.longest_name(),
            Term::Abort(e) => e.longest_name(),
            Term::Promote(e) => e.longest_name(),
            Term::Derelict(e) => e.longest_name(),
            Term::Discard(d, body) => larger(d.longest_name(), body.longest_name()),
            Term::Copy(src, x, y, body) => larger(
                larger(x.as_str().unicode_len(), y.as_str().unicode_len()),
                larger(src.longest_name(), body.longest_name()),
            ),
        }
    }

    /// Substitutes `replacement` for the free occurrences of the variable
    /// named by `var`, without capture.
    fn substitute_name(&self, var: &String, replacement: &Term) -> (r: Term)
        ensures
            r@ == self@.substitute(var@, replacement@),
        decreases self@.size(),
    {
        match self {
            Term::Var(v) => if *v == *var {
                replacement.clone()
            } else {
                Term::Var(v.clone())
            },
            Term::Unit => Term::Unit,
            Term::Trivial => Term::Trivial,
            Term::Pair(a, b) => Term::Pair(
                Box::new(a.substitute_name(var, replacement)),
                Box::new(b.substitute_name(var, replacement)),
            ),
            Term::LetPair(x, y, e, body) => {
                let new_e = e.substitute_name(var, replacement);
                if *x == *var || *y == *var {
                    Term::LetPair(x.clone(), y.clone(), Box::new(new_e), Box::new((**body).clone()))
                } else {
                    let (first, inner) = cleared(x, body, var, replacement, y);
                    let (second, innermost) = cleared(y, &inner, var, replacement, &first);
                    proof {
                        lemma_clearing_keeps_size(x@, body@, var@, replacement@, y@);
                        lemma_clearing_keeps_size(y@, inner@, var@, replacement@, first@);
                    }
                    let new_body = innermost.substitute_name(var, replacement);
                    Term::LetPair(first, second, Box::new(new_e), Box::new(new_body))
                }
            },
            Term::Abs(x, body) => if *x == *var {
                Term::Abs(x.clone(), Box::new((**body).clone()))
            } else {
                let (name, inner) = cleared(x, body, var, replacement, x);
                proof {
                    lemma_clearing_keeps_size(x@, body@, var@, replacement@, x@);
                }
                Term::Abs(name, Box::new(inner.substitute_name(var, replacement)))
            },
            Term::App(f, a) => Term::App(
                Box::new(f.substitute_name(var, replacement)),
                Box::new(a.substitute_name(var, replacement)),
            ),
            Term::Inl(e) => Term::Inl(Box::new(e.substitute_name(var, replacement))),
            Term::Inr(e) => Term::Inr(Box::new(e.substitute_name(var, replacement))),
            Term::Case(s, x, l, y, r) => {
                let new_s = s.substitute_name(var, replacement);
                let (left_name, new_l) = if *x == *var {
                    (x.clone(), (**l).clone())
                } else {
                    let (name, inner) = cleared(x, l, var, replacement, x);
                    proof {
                        lemma_clearing_keeps_size(x@, l@, var@, replacement@, x@);
                    }
                    (name, inner.substitute_name(var, replacement))
                };
                let (right_name, new_r) = if *y == *var {
                    (y.clone(), (**r).clone())
                } else {
                    let (name, inner) = cleared(y, r, var, replacement, y);
                    proof {
                        lemma_clearing_keeps_size(y@, r@, var@, replacement@, y@);
                    }
                    (name, inner.substitute_name(var, replacement))
                };
                Term::Case(
                    Box::new(new_s),
                    left_name,
                    Box::new(new_l),
                    right_name,
                    Box::new(new_r),
                )
            },
            Term::Fst(e) => Term::Fst(Box::new(e.substitute_name(var, replacement))),
            Term::Snd(e) => Term::Snd(Box::new(e.substitute_name(var, replacement))),
            Term::Abort(e) => Term::Abort(Box::new(e.substitute_name(var, replacement))),
            Term::Promote(e) => Term::Promote(Box::new(e.substitute_name(var, replacement))),
            Term::Derelict(e) => Term::Derelict(Box::new(e.substitute_name(var, replacement))),
            Term::Discard(discarded, body) => Term::Discard(
                Box::new(discarded.substitute_name(var, replacement)),
                Box::new(body.substitute_name(var, replacement)),
            ),
            Term::Copy(src, x, y, body) => {
                let new_src = src.substitute_name(var, replacement);
                if *x == *var || *y == *var {
                    Term::Copy(Box::new(new_src), x.clone(), y.clone(), Box::new((**body).clone()))
                } else {
                    let (first, inner) = cleared(x, body, var, replacement, y);
                    let (second, innermost) = cleared(y, &inner, var, replacement, &first);
                    proof {
                        lemma_clearing_keeps_size(x@, body@, var@, replacement@, y@);
                        lemma_clearing_keeps_size(y@, inner@, var@, replacement@, first@);
                    }
                    let new_body = innermost.substitute_name(var, replacement);
                    Term::Copy(Box::new(new_src), first, second, Box::new(new_body))
                }
            },
        }
    }

    /// Substitutes `replacement` for the free occurrences of the variable
    /// `var`, without capture: where a binder would capture a variable of
    /// `replacement`, the binder is renamed first. The free variables of the
    /// result are those of the term without `var`, together with those of
    /// `replacement` if `var` was free in the term.
    pub fn substitute(&self, var: &str, replacement: &Term) -> (r: Term)
        ensures
            r@ == self@.substitute(var@, replacement@),
            r@.free_vars() == (if self@.free_vars().contains(var@) {
                self@.free_vars().remove(var@).union(replacement@.free_vars())
            } else {
                self@.free_vars()
            }),
            !self@.free_vars().contains(var@) ==> r@ == self@,
    {
        let name = String::from_str(var);
        proof {
            lemma_substitute_free_vars(self@, var@, replacement@);
        }
        self.substitute_name(&name, replacement)
    }

    /// Writes the term in the notation of the λ-calculus.
    pub fn pretty(&self) -> (r: String)
        ensures
            r@ == self@.pretty(),
        decreases self,
    {
        match self {
            Term::Var(v) => v.clone(),
            Term::Unit => String::from_str("()"),
            Term::Trivial => String::from_str("⟨⟩"),
            Term::Pair(a, b) => glue5("(", a.pretty().as_str(), ", ", b.pretty().as_str(), ")"),
            Term::LetPair(x, y, e, body) => {
                let mut out = String::from_str("let (");
                out.append(x.as_str());
                out.append(", ");
                out.append(y.as_str());
                out.append(") = ");
                out.append(e.pretty().as_str());
                out.append(" in ");
                out.append(body.pretty().as_str());
                out
            },
            Term::Abs(x, body) => {
                let mut out = String::from_str("λ");
                out.append(x.as_str());
                out.append(". ");
                out.append(body.pretty().as_str());
                out
            },
            Term::App(f, a) => glue5("(", f.pretty().as_str(), " ", a.pretty().as_str(), ")"),
            Term::Inl(e) => glue2("inl ", e.pretty().as_str()),
            Term::Inr(e) => glue2("inr ", e.pretty().as_str()),
            Term::Case(s, x, l, y, r) => {
                let mut out = String::from_str("case ");
                out.append(s.pretty().as_str());
                out.append(" of { inl ");
                out.append(x.as_str());
                out.append(" => ");
                out.append(l.pretty().as_str());
                out.append(" | inr ");
                out.append(y.as_str());
                out.append(" => ");
                out.append(r.pretty().as_str());
                out.append(" }");
                out
            },
            Term::Fst(e) => glue2("fst ", e.pretty().as_str()),
            Term::Snd(e) => glue2("snd ", e.pretty().as_str()),
            Term::Abort(e) => glue2("absurd ", e.pretty().as_str()),
            Term::Promote(e) => glue2("!", e.pretty().as_str()),
            Term::Derelict(e) => glue2("derelict ", e.pretty().as_str()),
            Term::Discard(_, body) => glue2("discard in ", body.pretty().as_str()),
            Term::Copy(src, x, y, body) => {
                let mut out = String::from_str("copy ");
                out.append(src.pretty().as_str());
                out.append(" as (");
                out.append(x.as_str());
                out.append(", ");
                out.append(y.as_str());
                out.append(") in ");
                out.append(body.pretty().as_str());
                out
            },
        }
    }
}

/// The names that occur free in a term are no longer than its longest
/// name.
pub proof fn lemma_free_names_are_short(t: TermView, v: Seq<char>)
    requires
        t.free_vars().contains(v),
    ensures
        v.len() <= t.longest(),
    decreases t,
{
    match t {
        TermView::Pair(a, b) => {
            if a.free_vars().contains(v) {
                lemma_free_names_are_short(*a, v);
            } else {
                lemma_free_names_are_short(*b, v);
            }
        },
        TermView::App(a, b) => {
            if a.free_vars().contains(v) {
                lemma_free_names_are_short(*a, v);
            } else {
                lemma_free_names_are_short(*b, v);
            }
        },
        TermView::Discard(a, b) => {
            if a.free_vars().contains(v) {
                lemma_free_names_are_short(*a, v);
            } else {
                lemma_free_names_are_short(*b, v);
            }
        },
        TermView::LetPair(_, _, e, body) => {
            if e.free_vars().contains(v) {
                lemma_free_names_are_short(*e, v);
            } else {
                lemma_free_names_are_short(*body, v);
            }
        },
        TermView::Copy(e, _, _, body) => {
            if e.free_vars().contains(v) {
                lemma_free_names_are_short(*e, v);
            } else {
                lemma_free_names_are_short(*body, v);
            }
        },
        TermView::Abs(_, body) => {
            lemma_free_names_are_short(*body, v);
        },
        TermView::Inl(e) => {
            lemma_free_names_are_short(*e, v);
        },
        TermView::Inr(e) => {
            lemma_free_names_are_short(*e, v);
        },
        TermView::Fst(e) => {
            lemma_free_names_are_short(*e, v);
        },
        TermView::Snd(e) => {
            lemma_free_names_are_short(*e, v);
        },
        TermView::Abort(e) => {
            lemma_free_names_are_short(*e, v);
        },
        TermView::Promote(e) => {
            lemma_free_names_are_short(*e, v);
        },
        TermView::Derelict(e) => {
            lemma_free_names_are_short(*e, v);
        },
        TermView::Case(s, _, l, _, r) => {
            if s.free_vars().contains(v) {
                lemma_free_names_are_short(*s, v);
            } else if l.free_vars().contains(v) {
                lemma_free_names_are_short(*l, v);
            } else {
                lemma_free_names_are_short(*r, v);
            }
        },
        _ => {},
    }
}

/// Putting a variable whose name is longer than every name of the term for
/// a variable renames the free occurrences and captures nothing: the free
/// variables are the same, with the new name for the old one.
pub proof fn lemma_put_fresh(t: TermView, x: Seq<char>, y: Seq<char>)
    requires
        y.len() > t.longest(),
    ensures
        t.put(x, TermView::Var(y)).free_vars() == (if t.free_vars().contains(x) {
            t.free_vars().remove(x).insert(y)
        } else {
            t.free_vars()
        }),
        t.put(x, TermView::Var(y)).longest() <= longer(t.longest(), y.len()),
    decreases t,
{
    let out = t.put(x, TermView::Var(y));
    let want = if t.free_vars().contains(x) {
        t.free_vars().remove(x).insert(y)
    } else {
        t.free_vars()
    };
    match t {
        TermView::Pair(a, b) => {
            lemma_put_fresh(*a, x, y);
            lemma_put_fresh(*b, x, y);
        },
        TermView::App(a, b) => {
            lemma_put_fresh(*a, x, y);
            lemma_put_fresh(*b, x, y);
        },
        TermView::Discard(a, b) => {
            lemma_put_fresh(*a, x, y);
            lemma_put_fresh(*b, x, y);
        },
        TermView::LetPair(_, _, e, body) => {
            lemma_put_fresh(*e, x, y);
            lemma_put_fresh(*body, x, y);
        },
        TermView::Copy(e, _, _, body) => {
            lemma_put_fresh(*e, x, y);
            lemma_put_fresh(*body, x, y);
        },
        TermView::Abs(_, body) => {
            lemma_put_fresh(*body, x, y);
        },
        TermView::Inl(e) => {
            lemma_put_fresh(*e, x, y);
        },
        TermView::Inr(e) => {
            lemma_put_fresh(*e, x, y);
        },
        TermView::Fst(e) => {
            lemma_put_fresh(*e, x, y);
        },
        TermView::Snd(e) => {
            lemma_put_fresh(*e, x, y);
        },
        TermView::Abort(e) => {
            lemma_put_fresh(*e, x, y);
        },
        TermView::Promote(e) => {
            lemma_put_fresh(*e, x, y);
        },
        TermView::Derelict(e) => {
            lemma_put_fresh(*e, x, y);
        },
        TermView::Case(s, _, l, _, r) => {
            lemma_put_fresh(*s, x, y);
            lemma_put_fresh(*l, x, y);
            lemma_put_fresh(*r, x, y);
        },
        _ => {},
    }
    assert(out.free_vars() =~= want);
}

/// A fresh name is longer than the name it is made of and than the bound.
pub proof fn lemma_fresh_binder_len(x: Seq<char>, bound: nat)
    ensures
        fresh_binder(x, bound).len() == longer(x.len(), bound) + 1,
{
    reveal_strlit("_");
    lemma_repeat_one_len("_"@, (longer(x.len(), bound) - x.len()) as nat);
}

/// A text of one character, repeated, is as long as it is often repeated.
proof fn lemma_repeat_one_len(unit: Seq<char>, n: nat)
    requires
        unit.len() == 1,
    ensures
        crate::text::repeat(unit, n).len() == n,
    decreases n,
{
    if n > 0 {
        lemma_repeat_one_len(unit, (n - 1) as nat);
    }
}

/// What clearing a binder gives: a binder that captures no variable of the
/// replacement where the variable is free in the body, over a body with the
/// same free variables but for the binder's own.
pub proof fn lemma_cleared_binder(
    x: Seq<char>,
    body: TermView,
    var: Seq<char>,
    replacement: TermView,
    other: Seq<char>,
)
    requires
        x != var,
    ensures
        clear_body(x, body, var, replacement, other).size() == body.size(),
        clear_body(x, body, var, replacement, other).free_vars().contains(var)
            == body.free_vars().contains(var),
        clear_body(x, body, var, replacement, other).free_vars().remove(
            clear_name(x, body, var, replacement, other),
        ) == body.free_vars().remove(x),
        body.free_vars().contains(var) ==> !replacement.free_vars().contains(
            clear_name(x, body, var, replacement, other),
        ),
        clear_name(x, body, var, replacement, other) != var,
        !body.free_vars().contains(var) ==> clear_body(x, body, var, replacement, other) == body
            && clear_name(x, body, var, replacement, other) == x,
{
    lemma_clearing_keeps_size(x, body, var, replacement, other);
    if clashes(x, body, var, replacement) {
        let bound = name_bound(body, var, replacement, other);
        let name = fresh_binder(x, bound);
        lemma_fresh_binder_len(x, bound);
        lemma_put_fresh(body, x, name);
        if body.free_vars().contains(name) {
            lemma_free_names_are_short(body, name);
        }
        if replacement.free_vars().contains(name) {
            lemma_free_names_are_short(replacement, name);
        }
        let inner = body.put(x, TermView::Var(name));
        assert(inner.free_vars().remove(name) =~= body.free_vars().remove(x));
    }
}

/// Substitution without capture: the free variables of the result are
/// those of the term without the variable, together with those of the
/// replacement if the variable was free in the term. Where it was not, the
/// term stays as it is.
pub proof fn lemma_substitute_free_vars(t: TermView, var: Seq<char>, replacement: TermView)
    ensures
        t.substitute(var, replacement).free_vars() == (if t.free_vars().contains(var) {
            t.free_vars().remove(var).union(replacement.free_vars())
        } else {
            t.free_vars()
        }),
        !t.free_vars().contains(var) ==> t.substitute(var, replacement) == t,
    decreases t.size(), 0nat,
{
    let out = t.substitute(var, replacement);
    let want = if t.free_vars().contains(var) {
        t.free_vars().remove(var).union(replacement.free_vars())
    } else {
        t.free_vars()
    };
    match t {
        TermView::Var(_) => {},
        TermView::Unit => {},
        TermView::Trivial => {},
        TermView::Pair(a, b) => {
            lemma_substitute_free_vars(*a, var, replacement);
            lemma_substitute_free_vars(*b, var, replacement);
        },
        TermView::App(a, b) => {
            lemma_substitute_free_vars(*a, var, replacement);
            lemma_substitute_free_vars(*b, var, replacement);
        },
        TermView::Discard(a, b) => {
            lemma_substitute_free_vars(*a, var, replacement);
            lemma_substitute_free_vars(*b, var, replacement);
        },
        TermView::LetPair(x, y, e, body) => {
            lemma_substitute_free_vars(*e, var, replacement);
            if x != var && y != var {
                lemma_two_binders(x, y, *body, var, replacement);
            }
        },
        TermView::Copy(e, x, y, body) => {
            lemma_substitute_free_vars(*e, var, replacement);
            if x != var && y != var {
                lemma_two_binders(x, y, *body, var, replacement);
            }
        },
        TermView::Abs(x, body) => {
            if x != var {
                lemma_one_binder(x, *body, var, replacement);
            }
        },
        TermView::Inl(e) => {
            lemma_substitute_free_vars(*e, var, replacement);
        },
        TermView::Inr(e) => {
            lemma_substitute_free_vars(*e, var, replacement);
        },
        TermView::Fst(e) => {
            lemma_substitute_free_vars(*e, var, replacement);
        },
        TermView::Snd(e) => {
            lemma_substitute_free_vars(*e, var, replacement);
        },
        TermView::Abort(e) => {
            lemma_substitute_free_vars(*e, var, replacement);
        },
        TermView::Promote(e) => {
            lemma_substitute_free_vars(*e, var, replacement);
        },
        TermView::Derelict(e) => {
            lemma_substitute_free_vars(*e, var, replacement);
        },
        TermView::Case(s, x, l, y, r) => {
            lemma_substitute_free_vars(*s, var, replacement);
            if x != var {
                lemma_one_binder(x, *l, var, replacement);
            }
            if y != var {
                lemma_one_binder(y, *r, var, replacement);
            }
        },
    }
    assert(out.free_vars() =~= want);
}

/// Substitution under one binder, other than the variable.
proof fn lemma_one_binder(x: Seq<char>, body: TermView, var: Seq<char>, replacement: TermView)
    requires
        x != var,
    ensures
        clear_body(x, body, var, replacement, x).substitute(var, replacement).free_vars().remove(
            clear_name(x, body, var, replacement, x),
        ) == (if body.free_vars().contains(var) {
            body.free_vars().remove(x).remove(var).union(replacement.free_vars())
        } else {
            body.free_vars().remove(x)
        }),
        !body.free_vars().contains(var) ==> clear_name(x, body, var, replacement, x) == x
            && clear_body(x, body, var, replacement, x).substitute(var, replacement) == body,
    decreases body.size(), 1nat,
{
    let name = clear_name(x, body, var, replacement, x);
    let inner = clear_body(x, body, var, replacement, x);
    lemma_cleared_binder(x, body, var, replacement, x);
    lemma_substitute_free_vars(inner, var, replacement);
    let got = inner.substitute(var, replacement).free_vars().remove(name);
    let want = if body.free_vars().contains(var) {
        body.free_vars().remove(x).remove(var).union(replacement.free_vars())
    } else {
        body.free_vars().remove(x)
    };
    assert(inner.free_vars().remove(name) == body.free_vars().remove(x));
    assert forall|v: Seq<char>| got.contains(v) == want.contains(v) by {
        assert(inner.free_vars().remove(name).contains(v) == body.free_vars().remove(x).contains(
            v,
        ));
    }
    assert(got =~= want);
}

/// Substitution under two binders, both other than the variable.
proof fn lemma_two_binders(
    x: Seq<char>,
    y: Seq<char>,
    body: TermView,
    var: Seq<char>,
    replacement: TermView,
)
    requires
        x != var,
        y != var,
    ensures
        ({
            let first = clear_name(x, body, var, replacement, y);
            let inner = clear_body(x, body, var, replacement, y);
            let second = clear_name(y, inner, var, replacement, first);
            let innermost = clear_body(y, inner, var, replacement, first);
            &&& innermost.substitute(var, replacement).free_vars().remove(first).remove(second)
                == (if body.free_vars().contains(var) {
                body.free_vars().remove(x).remove(y).remove(var).union(replacement.free_vars())
            } else {
                body.free_vars().remove(x).remove(y)
            })
            &&& !body.free_vars().contains(var) ==> first == x && second == y
                && innermost.substitute(var, replacement) == body
        }),
    decreases body.size(), 1nat,
{
    let first = clear_name(x, body, var, replacement, y);
    let inner = clear_body(x, body, var, replacement, y);
    let second = clear_name(y, inner, var, replacement, first);
    let innermost = clear_body(y, inner, var, replacement, first);
    lemma_cleared_binder(x, body, var, replacement, y);
    lemma_cleared_binder(y, inner, var, replacement, first);
    lemma_substitute_free_vars(innermost, var, replacement);
    let got = innermost.substitute(var, replacement).free_vars().remove(first).remove(second);
    let want = if body.free_vars().contains(var) {
        body.free_vars().remove(x).remove(y).remove(var).union(replacement.free_vars())
    } else {
        body.free_vars().remove(x).remove(y)
    };
    assert(inner.free_vars().remove(first) == body.free_vars().remove(x));
    assert(innermost.free_vars().remove(second) == inner.free_vars().remove(y));
    assert forall|v: Seq<char>| got.contains(v) == want.contains(v) by {
        assert(inner.free_vars().remove(first).contains(v) == body.free_vars().remove(x).contains(
            v,
        ));
        assert(innermost.free_vars().remove(second).contains(v) == inner.free_vars().remove(
            y,
        ).contains(v));
    }
    assert(got =~= want);
}

} // verus!
