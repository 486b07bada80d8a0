//! Parsing gives back what printing wrote: a formula whose atoms have
//! proper names, printed in Unicode or in ASCII symbols and parsed again, is
//! the formula itself.

use vstd::prelude::*;
use crate::formula::FormulaView;
use crate::parse::{
    ParseErrorView,
    TokenKind,
    TokenView,
    combine,
    formula_of_text,
    has_kind,
    ident_end,
    is_ident_char,
    is_letter,
    lex_from,
    operator,
    parse_level,
    parse_primary,
    symbol_kind,
    token_then,
    tokens_then,
    word_kind,
};

verus! {

/// Whether the text is a word: a letter followed by letters, digits and
/// underscores.
pub open spec fn is_word(a: Seq<char>) -> bool {
    &&& a.len() > 0
    &&& is_letter(a[0])
    &&& forall|i: int| 0 <= i < a.len() ==> is_ident_char(#[trigger] a[i])
}

/// Whether the text can be the name of an atom: a word that the syntax
/// does not keep for a unit.
pub open spec fn is_name(a: Seq<char>) -> bool {
    is_word(a) && word_kind(a) == TokenKind::Ident
}

/// Whether every atom of the formula has a proper name.
pub open spec fn names_ok(f: FormulaView) -> bool
    decreases f,
{
    match f {
        FormulaView::Atom(a) => is_name(a),
        FormulaView::NegAtom(a) => is_name(a),
        FormulaView::Tensor(a, b) => names_ok(*a) && names_ok(*b),
        FormulaView::Par(a, b) => names_ok(*a) && names_ok(*b),
        FormulaView::With(a, b) => names_ok(*a) && names_ok(*b),
        FormulaView::Plus(a, b) => names_ok(*a) && names_ok(*b),
        FormulaView::Lolli(a, b) => names_ok(*a) && names_ok(*b),
        FormulaView::OfCourse(a) => names_ok(*a),
        FormulaView::WhyNot(a) => names_ok(*a),
        _ => true,
    }
}

/// The formula as printed, in ASCII or in Unicode symbols.
pub open spec fn printed(f: FormulaView, ascii: bool) -> Seq<char> {
    if ascii {
        f.pretty_ascii()
    } else {
        f.pretty()
    }
}

/// The token of one character.
pub open spec fn symbol(kind: TokenKind, c: char) -> TokenView {
    TokenView { kind, text: seq![c] }
}

/// The text that prints the binary operator of a level.
pub open spec fn operator_text(level: nat, ascii: bool) -> Seq<char> {
    if level == 1 {
        if ascii {
            seq!['*']
        } else {
            seq!['⊗']
        }
    } else if level == 2 {
        if ascii {
            seq!['+']
        } else {
            seq!['⊕']
        }
    } else if level == 3 {
        seq!['&']
    } else if level == 4 {
        if ascii {
            seq!['|']
        } else {
            seq!['⅋']
        }
    } else {
        if ascii {
            seq!['-', 'o']
        } else {
            seq!['⊸']
        }
    }
}

/// The token of the binary operator of a level.
pub open spec fn operator_token(level: nat, ascii: bool) -> TokenView {
    TokenView { kind: operator(level), text: operator_text(level, ascii) }
}

/// The token that negates an atom.
pub open spec fn negation_token(ascii: bool) -> TokenView {
    if ascii {
        symbol(TokenKind::Caret, '^')
    } else {
        symbol(TokenKind::Perp, '⊥')
    }
}

/// The token of the unit bottom.
pub open spec fn bottom_token(ascii: bool) -> TokenView {
    if ascii {
        TokenView { kind: TokenKind::Bot, text: seq!['b', 'o', 't'] }
    } else {
        symbol(TokenKind::Perp, '⊥')
    }
}

/// The token of the unit top.
pub open spec fn top_token(ascii: bool) -> TokenView {
    if ascii {
        TokenView { kind: TokenKind::Top, text: seq!['t', 'o', 'p'] }
    } else {
        symbol(TokenKind::Top, '⊤')
    }
}

/// The tokens that the formula is printed as.
pub open spec fn tokens_of(f: FormulaView, ascii: bool) -> Seq<TokenView>
    decreases f,
{
    match f {
        FormulaView::Atom(a) => seq![TokenView { kind: TokenKind::Ident, text: a }],
        FormulaView::NegAtom(a) => seq![
            TokenView { kind: TokenKind::Ident, text: a },
            negation_token(ascii),
        ],
        FormulaView::Tensor(a, b) => binary_tokens(
            1,
            tokens_of(*a, ascii),
            tokens_of(*b, ascii),
            ascii,
        ),
        FormulaView::Plus(a, b) => binary_tokens(
            2,
            tokens_of(*a, ascii),
            tokens_of(*b, ascii),
            ascii,
        ),
        FormulaView::With(a, b) => binary_tokens(
            3,
            tokens_of(*a, ascii),
            tokens_of(*b, ascii),
            ascii,
        ),
        FormulaView::Par(a, b) => binary_tokens(
            4,
            tokens_of(*a, ascii),
            tokens_of(*b, ascii),
            ascii,
        ),
        FormulaView::Lolli(a, b) => binary_tokens(
            5,
            tokens_of(*a, ascii),
            tokens_of(*b, ascii),
            ascii,
        ),
        FormulaView::OfCourse(a) => seq![symbol(TokenKind::Bang, '!')] + tokens_of(*a, ascii),
        FormulaView::WhyNot(a) => seq![symbol(TokenKind::Quest, '?')] + tokens_of(*a, ascii),
        FormulaView::One => seq![symbol(TokenKind::One, '1')],
        FormulaView::Bottom => seq![bottom_token(ascii)],
        FormulaView::Top => seq![top_token(ascii)],
        FormulaView::Zero => seq![symbol(TokenKind::Zero, '0')],
    }
}

/// The tokens of two formulas in brackets around the operator of a level.
pub open spec fn binary_tokens(
    level: nat,
    a: Seq<TokenView>,
    b: Seq<TokenView>,
    ascii: bool,
) -> Seq<TokenView> {
    seq![symbol(TokenKind::Open, '(')] + a + seq![operator_token(level, ascii)] + b + seq![
        symbol(TokenKind::Close, ')'),
    ]
}

/// Two formulas in brackets around the operator of a level, as printed.
pub open spec fn binary_text(level: nat, a: Seq<char>, b: Seq<char>, ascii: bool) -> Seq<char> {
    seq!['('] + a + seq![' '] + operator_text(level, ascii) + seq![' '] + b + seq![')']
}

/// The part of the text from `from` up to `to`.
pub open spec fn piece(s: Seq<char>, from: nat, to: nat) -> Seq<char> {
    s.subrange(from as int, to as int)
}

/// Whether the text `t` stands in `s` at `pos`.
pub open spec fn stands_at(s: Seq<char>, pos: nat, t: Seq<char>) -> bool {
    pos + t.len() <= s.len() && piece(s, pos, pos + t.len()) == t
}

/// Whether no identifier goes on at `pos`: the text ends there, or a
/// character stands there that no identifier holds.
pub open spec fn word_ends(s: Seq<char>, pos: nat) -> bool {
    pos >= s.len() || !is_ident_char(s[pos as int])
}

/// What the printed formulas are made of, character by character.
pub proof fn lemma_printed(f: FormulaView, ascii: bool)
    ensures
        printed(f, ascii) == (match f {
            FormulaView::Atom(a) => a,
            FormulaView::NegAtom(a) => a + negation_token(ascii).text,
            FormulaView::Tensor(a, b) => binary_text(
                1,
                printed(*a, ascii),
                printed(*b, ascii),
                ascii,
            ),
            FormulaView::Plus(a, b) => binary_text(
                2,
                printed(*a, ascii),
                printed(*b, ascii),
                ascii,
            ),
            FormulaView::With(a, b) => binary_text(
                3,
                printed(*a, ascii),
                printed(*b, ascii),
                ascii,
            ),
            FormulaView::Par(a, b) => binary_text(
                4,
                printed(*a, ascii),
                printed(*b, ascii),
                ascii,
            ),
            FormulaView::Lolli(a, b) => binary_text(
                5,
                printed(*a, ascii),
                printed(*b, ascii),
                ascii,
            ),
            FormulaView::OfCourse(a) => seq!['!'] + printed(*a, ascii),
            FormulaView::WhyNot(a) => seq!['?'] + printed(*a, ascii),
            FormulaView::One => seq!['1'],
            FormulaView::Bottom => bottom_token(ascii).text,
            FormulaView::Top => top_token(ascii).text,
            FormulaView::Zero => seq!['0'],
        }),
{
    reveal_strlit("(");
    reveal_strlit(")");
    reveal_strlit("⊥");
    reveal_strlit("^");
    reveal_strlit(" ⊗ ");
    reveal_strlit(" ⅋ ");
    reveal_strlit(" ⊸ ");
    reveal_strlit(" & ");
    reveal_strlit(" ⊕ ");
    reveal_strlit(" * ");
    reveal_strlit(" | ");
    reveal_strlit(" -o ");
    reveal_strlit(" + ");
    reveal_strlit("!");
    reveal_strlit("?");
    reveal_strlit("1");
    reveal_strlit("⊤");
    reveal_strlit("0");
    reveal_strlit("bot");
    reveal_strlit("top");
    assert("("@ =~= seq!['(']);
    assert(")"@ =~= seq![')']);
    assert("⊥"@ =~= seq!['⊥']);
    assert("^"@ =~= seq!['^']);
    assert(" ⊗ "@ =~= seq![' '] + seq!['⊗'] + seq![' ']);
    assert(" ⅋ "@ =~= seq![' '] + seq!['⅋'] + seq![' ']);
    assert(" ⊸ "@ =~= seq![' '] + seq!['⊸'] + seq![' ']);
    assert(" & "@ =~= seq![' '] + seq!['&'] + seq![' ']);
    assert(" ⊕ "@ =~= seq![' '] + seq!['⊕'] + seq![' ']);
    assert(" * "@ =~= seq![' '] + seq!['*'] + seq![' ']);
    assert(" | "@ =~= seq![' '] + seq!['|'] + seq![' ']);
    assert(" -o "@ =~= seq![' '] + seq!['-', 'o'] + seq![' ']);
    assert(" + "@ =~= seq![' '] + seq!['+'] + seq![' ']);
    assert("!"@ =~= seq!['!']);
    assert("?"@ =~= seq!['?']);
    assert("1"@ =~= seq!['1']);
    assert("⊤"@ =~= seq!['⊤']);
    assert("0"@ =~= seq!['0']);
    assert("bot"@ =~= seq!['b', 'o', 't']);
    assert("top"@ =~= seq!['t', 'o', 'p']);
    match f {
        FormulaView::Tensor(a, b) => {
            lemma_binary_text(1, printed(*a, ascii), printed(*b, ascii), ascii);
        },
        FormulaView::Plus(a, b) => {
            lemma_binary_text(2, printed(*a, ascii), printed(*b, ascii), ascii);
        },
        FormulaView::With(a, b) => {
            lemma_binary_text(3, printed(*a, ascii), printed(*b, ascii), ascii);
        },
        FormulaView::Par(a, b) => {
            lemma_binary_text(4, printed(*a, ascii), printed(*b, ascii), ascii);
        },
        FormulaView::Lolli(a, b) => {
            lemma_binary_text(5, printed(*a, ascii), printed(*b, ascii), ascii);
        },
        _ => {},
    }
}

/// The parts of a printed binary formula can be grouped either way.
proof fn lemma_binary_text(level: nat, a: Seq<char>, b: Seq<char>, ascii: bool)
    ensures
        binary_text(level, a, b, ascii) == seq!['('] + a + (seq![' '] + operator_text(
            level,
            ascii,
        ) + seq![' ']) + b + seq![')'],
{
    let op = operator_text(level, ascii);
    assert(seq!['('] + a + seq![' '] + op + seq![' '] =~= seq!['('] + a + (seq![' '] + op + seq![
        ' ',
    ]));
}

/// A text that stands somewhere and is made of two parts has both parts
/// standing there, one behind the other.
pub proof fn lemma_stands_apart(s: Seq<char>, pos: nat, x: Seq<char>, y: Seq<char>)
    requires
        stands_at(s, pos, x + y),
    ensures
        stands_at(s, pos, x),
        stands_at(s, pos + x.len(), y),
{
    let whole = piece(s, pos, pos + (x + y).len());
    assert(piece(s, pos, pos + x.len()) =~= whole.subrange(0, x.len() as int));
    assert((x + y).subrange(0, x.len() as int) =~= x);
    assert(piece(s, pos + x.len(), pos + x.len() + y.len()) =~= whole.subrange(
        x.len() as int,
        (x + y).len() as int,
    ));
    assert((x + y).subrange(x.len() as int, (x + y).len() as int) =~= y);
}

/// The character that stands at a place.
proof fn lemma_char_at(s: Seq<char>, pos: nat, t: Seq<char>, i: int)
    requires
        stands_at(s, pos, t),
        0 <= i < t.len(),
    ensures
        pos + i < s.len(),
        s[pos + i] == t[i],
{
    assert(s[pos + i] == piece(s, pos, pos + t.len())[i]);
}

/// A character that stands by itself as a token is lexed as that token. A
/// bar is one where no dash follows it.
pub proof fn lemma_lex_symbol(s: Seq<char>, pos: nat, c: char, kind: TokenKind)
    requires
        stands_at(s, pos, seq![c]),
        symbol_kind(c) == Some(kind),
        c == '|' ==> pos + 1 < s.len() && s[pos as int + 1] != '-',
    ensures
        lex_from(s, pos) == token_then(symbol(kind, c), lex_from(s, pos + 1)),
{
    lemma_char_at(s, pos, seq![c], 0);
    assert(s.subrange(pos as int, pos + 1 as int) =~= seq![c]);
}

/// A dash and an `o` are lexed as the linear implication.
pub proof fn lemma_lex_lolli(s: Seq<char>, pos: nat)
    requires
        stands_at(s, pos, seq!['-', 'o']),
    ensures
        lex_from(s, pos) == token_then(
            TokenView { kind: TokenKind::Lolli, text: seq!['-', 'o'] },
            lex_from(s, pos + 2),
        ),
{
    lemma_char_at(s, pos, seq!['-', 'o'], 0);
    lemma_char_at(s, pos, seq!['-', 'o'], 1);
    assert(s.subrange(pos as int, pos + 2 as int) =~= seq!['-', 'o']);
}

/// A blank between tokens is passed over.
pub proof fn lemma_lex_space(s: Seq<char>, pos: nat)
    requires
        stands_at(s, pos, seq![' ']),
    ensures
        lex_from(s, pos) == lex_from(s, pos + 1),
{
    lemma_char_at(s, pos, seq![' '], 0);
}

/// An identifier that has begun goes on to the end of the word.
proof fn lemma_ident_end(s: Seq<char>, start: nat, a: Seq<char>, from: nat)
    requires
        stands_at(s, start, a),
        forall|i: int| 0 <= i < a.len() ==> is_ident_char(#[trigger] a[i]),
        word_ends(s, start + a.len()),
        start <= from <= start + a.len(),
    ensures
        ident_end(s, from) == start + a.len(),
    decreases start + a.len() - from,
{
    if from < start + a.len() {
        lemma_char_at(s, start, a, from - start);
        lemma_ident_end(s, start, a, from + 1);
    }
}

/// A word is lexed as one token, of the kind of the word.
pub proof fn lemma_lex_word(s: Seq<char>, pos: nat, a: Seq<char>)
    requires
        is_word(a),
        stands_at(s, pos, a),
        word_ends(s, pos + a.len()),
    ensures
        lex_from(s, pos) == token_then(
            TokenView { kind: word_kind(a), text: a },
            lex_from(s, pos + a.len()),
        ),
{
    lemma_char_at(s, pos, a, 0);
    lemma_ident_end(s, pos, a, pos + 1);
}

/// Tokens in front of tokens in front of a rest are all of them in front
/// of the rest.
pub proof fn lemma_tokens_then(
    x: Seq<TokenView>,
    y: Seq<TokenView>,
    rest: Result<Seq<TokenView>, ParseErrorView>,
)
    ensures
        tokens_then(x, tokens_then(y, rest)) == tokens_then(x + y, rest),
{
    match rest {
        Ok(r) => {
            assert(x + (y + r) =~= (x + y) + r);
        },
        Err(_) => {},
    }
}

/// One token in front of a rest.
pub proof fn lemma_token_then(t: TokenView, rest: Result<Seq<TokenView>, ParseErrorView>)
    ensures
        token_then(t, rest) == tokens_then(seq![t], rest),
{
}

/// The operator of a level, with a blank on either side, is lexed as its
/// token.
proof fn lemma_lex_operator(s: Seq<char>, pos: nat, level: nat, ascii: bool)
    requires
        1 <= level <= 5,
        stands_at(s, pos, seq![' '] + operator_text(level, ascii) + seq![' ']),
    ensures
        lex_from(s, pos) == token_then(
            operator_token(level, ascii),
            lex_from(s, pos + 2 + operator_text(level, ascii).len()),
        ),
{
    let op = operator_text(level, ascii);
    lemma_stands_apart(s, pos, seq![' '] + op, seq![' ']);
    lemma_stands_apart(s, pos, seq![' '], op);
    lemma_lex_space(s, pos);
    lemma_lex_space(s, pos + 1 + op.len());
    lemma_char_at(s, pos + 1 + op.len(), seq![' '], 0);
    if level == 5 && ascii {
        lemma_lex_lolli(s, pos + 1);
    } else {
        lemma_lex_symbol(s, pos + 1, op[0], operator(level));
        assert(op =~= seq![op[0]]);
    }
}

/// Two formulas in brackets around an operator are lexed as a bracket, the
/// tokens of the left formula, the operator, the tokens of the right
/// formula and a bracket, if the two formulas are lexed as their tokens.
proof fn lemma_lex_binary(
    s: Seq<char>,
    pos: nat,
    level: nat,
    ascii: bool,
    a: Seq<char>,
    b: Seq<char>,
    ta: Seq<TokenView>,
    tb: Seq<TokenView>,
)
    requires
        1 <= level <= 5,
        stands_at(s, pos, binary_text(level, a, b, ascii)),
        lex_from(s, pos + 1) == tokens_then(ta, lex_from(s, pos + 1 + a.len())),
        lex_from(s, pos + 3 + a.len() + operator_text(level, ascii).len()) == tokens_then(
            tb,
            lex_from(s, pos + 3 + a.len() + operator_text(level, ascii).len() + b.len()),
        ),
    ensures
        lex_from(s, pos) == tokens_then(
            binary_tokens(level, ta, tb, ascii),
            lex_from(s, pos + binary_text(level, a, b, ascii).len()),
        ),
{
    let open = seq!['('];
    let middle = seq![' '] + operator_text(level, ascii) + seq![' '];
    let close = seq![')'];
    let width = operator_text(level, ascii).len();
    let end = pos + 4 + a.len() + width + b.len();
    lemma_binary_text(level, a, b, ascii);
    lemma_stands_apart(s, pos, ((open + a) + middle) + b, close);
    lemma_stands_apart(s, pos, (open + a) + middle, b);
    lemma_stands_apart(s, pos, open + a, middle);
    lemma_stands_apart(s, pos, open, a);
    lemma_lex_symbol(s, pos, '(', TokenKind::Open);
    lemma_lex_operator(s, pos + 1 + a.len(), level, ascii);
    lemma_lex_symbol(s, (end - 1) as nat, ')', TokenKind::Close);
    let rest = lex_from(s, end);
    let t_open = symbol(TokenKind::Open, '(');
    let t_op = operator_token(level, ascii);
    let t_close = symbol(TokenKind::Close, ')');
    lemma_token_then(t_close, rest);
    lemma_token_then(t_op, lex_from(s, pos + 3 + a.len() + width));
    lemma_token_then(t_open, lex_from(s, pos + 1));
    lemma_tokens_then(tb, seq![t_close], rest);
    lemma_tokens_then(seq![t_op], tb + seq![t_close], rest);
    lemma_tokens_then(ta, seq![t_op] + (tb + seq![t_close]), rest);
    lemma_tokens_then(seq![t_open], ta + (seq![t_op] + (tb + seq![t_close])), rest);
    assert(seq![t_open] + (ta + (seq![t_op] + (tb + seq![t_close]))) =~= binary_tokens(
        level,
        ta,
        tb,
        ascii,
    ));
}

/// A printed formula is lexed as its tokens, wherever it stands, as long
/// as no identifier goes on behind it.
pub proof fn lemma_lex_printed(f: FormulaView, ascii: bool, s: Seq<char>, pos: nat)
    requires
        names_ok(f),
        stands_at(s, pos, printed(f, ascii)),
        word_ends(s, pos + printed(f, ascii).len()),
    ensures
        lex_from(s, pos) == tokens_then(
            tokens_of(f, ascii),
            lex_from(s, pos + printed(f, ascii).len()),
        ),
    decreases f.size(), 0nat,
{
    lemma_printed(f, ascii);
    let end = pos + printed(f, ascii).len();
    let rest = lex_from(s, end);
    match f {
        FormulaView::Atom(a) => {
            lemma_lex_word(s, pos, a);
            lemma_token_then(tokens_of(f, ascii)[0], rest);
        },
        FormulaView::NegAtom(a) => {
            let mark = negation_token(ascii);
            lemma_stands_apart(s, pos, a, mark.text);
            lemma_char_at(s, pos + a.len(), mark.text, 0);
            lemma_lex_word(s, pos, a);
            lemma_lex_symbol(s, pos + a.len(), mark.text[0], mark.kind);
            assert(mark == symbol(mark.kind, mark.text[0]));
            let name = TokenView { kind: TokenKind::Ident, text: a };
            lemma_token_then(mark, rest);
            lemma_token_then(name, lex_from(s, pos + a.len()));
            lemma_tokens_then(seq![name], seq![mark], rest);
            assert(seq![name] + seq![mark] =~= tokens_of(f, ascii));
        },
        FormulaView::Tensor(a, b) => {
            lemma_lex_operands(*a, *b, 1, ascii, s, pos);
        },
        FormulaView::Plus(a, b) => {
            lemma_lex_operands(*a, *b, 2, ascii, s, pos);
        },
        FormulaView::With(a, b) => {
            lemma_lex_operands(*a, *b, 3, ascii, s, pos);
        },
        FormulaView::Par(a, b) => {
            lemma_lex_operands(*a, *b, 4, ascii, s, pos);
        },
        FormulaView::Lolli(a, b) => {
            lemma_lex_operands(*a, *b, 5, ascii, s, pos);
        },
        FormulaView::OfCourse(a) => {
            let bang = symbol(TokenKind::Bang, '!');
            lemma_stands_apart(s, pos, seq!['!'], printed(*a, ascii));
            lemma_lex_symbol(s, pos, '!', TokenKind::Bang);
            lemma_lex_printed(*a, ascii, s, pos + 1);
            lemma_token_then(bang, lex_from(s, pos + 1));
            lemma_tokens_then(seq![bang], tokens_of(*a, ascii), rest);
        },
        FormulaView::WhyNot(a) => {
            let quest = symbol(TokenKind::Quest, '?');
            lemma_stands_apart(s, pos, seq!['?'], printed(*a, ascii));
            lemma_lex_symbol(s, pos, '?', TokenKind::Quest);
            lemma_lex_printed(*a, ascii, s, pos + 1);
            lemma_token_then(quest, lex_from(s, pos + 1));
            lemma_tokens_then(seq![quest], tokens_of(*a, ascii), rest);
        },
        FormulaView::One => {
            lemma_lex_symbol(s, pos, '1', TokenKind::One);
            lemma_token_then(tokens_of(f, ascii)[0], rest);
        },
        FormulaView::Bottom => {
            if ascii {
                lemma_lex_word(s, pos, seq!['b', 'o', 't']);
            } else {
                lemma_lex_symbol(s, pos, '⊥', TokenKind::Perp);
            }
            lemma_token_then(tokens_of(f, ascii)[0], rest);
        },
        FormulaView::Top => {
            if ascii {
                lemma_lex_word(s, pos, seq!['t', 'o', 'p']);
            } else {
                lemma_lex_symbol(s, pos, '⊤', TokenKind::Top);
            }
            lemma_token_then(tokens_of(f, ascii)[0], rest);
        },
        FormulaView::Zero => {
            lemma_lex_symbol(s, pos, '0', TokenKind::Zero);
            lemma_token_then(tokens_of(f, ascii)[0], rest);
        },
    }
}

/// The two sides of a printed binary formula are lexed as their tokens.
proof fn lemma_lex_operands(
    a: FormulaView,
    b: FormulaView,
    level: nat,
    ascii: bool,
    s: Seq<char>,
    pos: nat,
)
    requires
        1 <= level <= 5,
        names_ok(a),
        names_ok(b),
        stands_at(s, pos, binary_text(level, printed(a, ascii), printed(b, ascii), ascii)),
    ensures
        lex_from(s, pos) == tokens_then(
            binary_tokens(level, tokens_of(a, ascii), tokens_of(b, ascii), ascii),
            lex_from(
                s,
                pos + binary_text(level, printed(a, ascii), printed(b, ascii), ascii).len(),
            ),
        ),
    decreases a.size() + b.size(), 1nat,
{
    let pa = printed(a, ascii);
    let pb = printed(b, ascii);
    let open = seq!['('];
    let middle = seq![' '] + operator_text(level, ascii) + seq![' '];
    let close = seq![')'];
    let width = operator_text(level, ascii).len();
    lemma_binary_text(level, pa, pb, ascii);
    lemma_stands_apart(s, pos, ((open + pa) + middle) + pb, close);
    lemma_stands_apart(s, pos, (open + pa) + middle, pb);
    lemma_stands_apart(s, pos, open + pa, middle);
    lemma_stands_apart(s, pos, open, pa);
    lemma_char_at(s, pos + 1 + pa.len(), middle, 0);
    lemma_char_at(s, pos + 3 + pa.len() + width + pb.len(), close, 0);
    lemma_lex_printed(a, ascii, s, pos + 1);
    lemma_lex_printed(b, ascii, s, pos + 3 + pa.len() + width);
    lemma_lex_binary(
        s,
        pos,
        level,
        ascii,
        pa,
        pb,
        tokens_of(a, ascii),
        tokens_of(b, ascii),
    );
}

/// The tokens from `from` up to `to`.
pub open spec fn span(ts: Seq<TokenView>, from: nat, to: nat) -> Seq<TokenView> {
    ts.subrange(from as int, to as int)
}

/// Whether the tokens `t` stand in `ts` at `pos`.
pub open spec fn tokens_at(ts: Seq<TokenView>, pos: nat, t: Seq<TokenView>) -> bool {
    pos + t.len() <= ts.len() && span(ts, pos, pos + t.len()) == t
}

/// Whether no negation of an atom stands at `pos`.
pub open spec fn operand_ends(ts: Seq<TokenView>, pos: nat) -> bool {
    !has_kind(ts, pos, TokenKind::Caret) && !has_kind(ts, pos, TokenKind::Perp)
}

/// Whether no binary operator stands at `pos`.
pub open spec fn phrase_ends(ts: Seq<TokenView>, pos: nat) -> bool {
    forall|level: nat| 1 <= level <= 5 ==> !has_kind(ts, pos, #[trigger] operator(level))
}

/// Tokens that stand somewhere and are made of two parts have both parts
/// standing there, one behind the other.
pub proof fn lemma_tokens_apart(ts: Seq<TokenView>, pos: nat, x: Seq<TokenView>, y: Seq<TokenView>)
    requires
        tokens_at(ts, pos, x + y),
    ensures
        tokens_at(ts, pos, x),
        tokens_at(ts, pos + x.len(), y),
{
    let whole = span(ts, pos, pos + (x + y).len());
    assert(span(ts, pos, pos + x.len()) =~= whole.subrange(0, x.len() as int));
    assert((x + y).subrange(0, x.len() as int) =~= x);
    assert(span(ts, pos + x.len(), pos + x.len() + y.len()) =~= whole.subrange(
        x.len() as int,
        (x + y).len() as int,
    ));
    assert((x + y).subrange(x.len() as int, (x + y).len() as int) =~= y);
}

/// The token that stands at a place.
proof fn lemma_token_at(ts: Seq<TokenView>, pos: nat, t: TokenView)
    requires
        tokens_at(ts, pos, seq![t]),
    ensures
        pos < ts.len(),
        ts[pos as int] == t,
{
    assert(ts[pos as int] == span(ts, pos, pos + 1)[0]);
}

/// A formula that is parsed at the tightest level, and behind which no
/// binary operator stands, is parsed as the same at every level.
pub proof fn lemma_parse_up(ts: Seq<TokenView>, pos: nat, x: FormulaView, n: nat, level: nat)
    requires
        parse_level(ts, pos, 0) == Ok::<(FormulaView, nat), ParseErrorView>((x, n)),
        phrase_ends(ts, pos + n),
        level <= 5,
    ensures
        parse_level(ts, pos, level) == Ok::<(FormulaView, nat), ParseErrorView>((x, n)),
    decreases level,
{
    if level > 0 {
        lemma_parse_up(ts, pos, x, n, (level - 1) as nat);
        assert(!has_kind(ts, pos + n, operator(level)));
    }
}

/// Two formulas around the operator of the level `top`, with a bracket
/// behind them, are parsed as the left formula below that level, and as
/// the two joined by the operator from that level on.
proof fn lemma_parse_climb(
    ts: Seq<TokenView>,
    pos: nat,
    top: nat,
    a: FormulaView,
    na: nat,
    b: FormulaView,
    nb: nat,
    level: nat,
)
    requires
        1 <= top <= 5,
        level <= 5,
        parse_level(ts, pos, 0) == Ok::<(FormulaView, nat), ParseErrorView>((a, na)),
        has_kind(ts, pos + na, operator(top)),
        parse_level(ts, pos + na + 1, 0) == Ok::<(FormulaView, nat), ParseErrorView>((b, nb)),
        has_kind(ts, pos + na + 1 + nb, TokenKind::Close),
    ensures
        parse_level(ts, pos, level) == (if level < top {
            Ok::<(FormulaView, nat), ParseErrorView>((a, na))
        } else {
            Ok::<(FormulaView, nat), ParseErrorView>((combine(top, a, b), na + 1 + nb))
        }),
    decreases level,
{
    if level > 0 {
        lemma_parse_climb(ts, pos, top, a, na, b, nb, (level - 1) as nat);
        if level == top {
            assert(phrase_ends(ts, pos + na + 1 + nb)) by {
                assert forall|l: nat| 1 <= l <= 5 implies !has_kind(
                    ts,
                    pos + na + 1 + nb,
                    #[trigger] operator(l),
                ) by {}
            }
            lemma_parse_up(ts, pos + na + 1, b, nb, level);
        }
    }
}

/// The tokens of a formula are parsed as the formula at the tightest
/// level, wherever they stand, as long as no negation of an atom stands
/// behind them.
pub proof fn lemma_parse_tokens(f: FormulaView, ascii: bool, ts: Seq<TokenView>, pos: nat)
    requires
        tokens_at(ts, pos, tokens_of(f, ascii)),
        operand_ends(ts, pos + tokens_of(f, ascii).len()),
    ensures
        parse_level(ts, pos, 0) == Ok::<(FormulaView, nat), ParseErrorView>(
            (f, tokens_of(f, ascii).len()),
        ),
    decreases f.size(), 0nat,
{
    reveal_with_fuel(parse_level, 2);
    reveal_with_fuel(parse_primary, 2);
    match f {
        FormulaView::Atom(a) => {
            lemma_token_at(ts, pos, tokens_of(f, ascii)[0]);
        },
        FormulaView::NegAtom(a) => {
            let name = TokenView { kind: TokenKind::Ident, text: a };
            let mark = negation_token(ascii);
            assert(tokens_of(f, ascii) =~= seq![name] + seq![mark]);
            lemma_tokens_apart(ts, pos, seq![name], seq![mark]);
            lemma_token_at(ts, pos, name);
            lemma_token_at(ts, pos + 1, mark);
        },
        FormulaView::Tensor(a, b) => {
            lemma_parse_operands(*a, *b, 1, ascii, ts, pos);
        },
        FormulaView::Plus(a, b) => {
            lemma_parse_operands(*a, *b, 2, ascii, ts, pos);
        },
        FormulaView::With(a, b) => {
            lemma_parse_operands(*a, *b, 3, ascii, ts, pos);
        },
        FormulaView::Par(a, b) => {
            lemma_parse_operands(*a, *b, 4, ascii, ts, pos);
        },
        FormulaView::Lolli(a, b) => {
            lemma_parse_operands(*a, *b, 5, ascii, ts, pos);
        },
        FormulaView::OfCourse(a) => {
            let bang = symbol(TokenKind::Bang, '!');
            lemma_tokens_apart(ts, pos, seq![bang], tokens_of(*a, ascii));
            lemma_token_at(ts, pos, bang);
            lemma_parse_tokens(*a, ascii, ts, pos + 1);
        },
        FormulaView::WhyNot(a) => {
            let quest = symbol(TokenKind::Quest, '?');
            lemma_tokens_apart(ts, pos, seq![quest], tokens_of(*a, ascii));
            lemma_token_at(ts, pos, quest);
            lemma_parse_tokens(*a, ascii, ts, pos + 1);
        },
        _ => {
            lemma_token_at(ts, pos, tokens_of(f, ascii)[0]);
        },
    }
}

/// The tokens of two formulas in brackets around the operator of a level
/// are parsed as the two formulas joined by that operator.
proof fn lemma_parse_operands(
    a: FormulaView,
    b: FormulaView,
    top: nat,
    ascii: bool,
    ts: Seq<TokenView>,
    pos: nat,
)
    requires
        1 <= top <= 5,
        tokens_at(ts, pos, binary_tokens(top, tokens_of(a, ascii), tokens_of(b, ascii), ascii)),
    ensures
        parse_level(ts, pos, 0) == Ok::<(FormulaView, nat), ParseErrorView>(
            (
                combine(top, a, b),
                binary_tokens(top, tokens_of(a, ascii), tokens_of(b, ascii), ascii).len(),
            ),
        ),
    decreases a.size() + b.size(), 1nat,
{
    reveal_with_fuel(parse_level, 2);
    reveal_with_fuel(parse_primary, 2);
    let ta = tokens_of(a, ascii);
    let tb = tokens_of(b, ascii);
    let open = symbol(TokenKind::Open, '(');
    let op = operator_token(top, ascii);
    let close = symbol(TokenKind::Close, ')');
    assert(binary_tokens(top, ta, tb, ascii) == (((seq![open] + ta) + seq![op]) + tb) + seq![
        close,
    ]);
    lemma_tokens_apart(ts, pos, ((seq![open] + ta) + seq![op]) + tb, seq![close]);
    lemma_tokens_apart(ts, pos, (seq![open] + ta) + seq![op], tb);
    lemma_tokens_apart(ts, pos, seq![open] + ta, seq![op]);
    lemma_tokens_apart(ts, pos, seq![open], ta);
    lemma_token_at(ts, pos, open);
    lemma_token_at(ts, pos + 1 + ta.len(), op);
    lemma_token_at(ts, pos + 2 + ta.len() + tb.len(), close);
    lemma_parse_tokens(a, ascii, ts, pos + 1);
    lemma_parse_tokens(b, ascii, ts, pos + 2 + ta.len());
    lemma_parse_climb(ts, pos + 1, top, a, ta.len(), b, tb.len(), 5);
}

/// Round trip: a formula whose atoms have proper names, printed in ASCII or
/// in Unicode symbols and parsed again, is the formula itself.
pub proof fn lemma_parse_printed(f: FormulaView, ascii: bool)
    requires
        names_ok(f),
    ensures
        formula_of_text(printed(f, ascii)) == Ok::<FormulaView, ParseErrorView>(f),
{
    let s = printed(f, ascii);
    let ts = tokens_of(f, ascii);
    assert(piece(s, 0, s.len()) =~= s);
    lemma_lex_printed(f, ascii, s, 0);
    assert(ts + Seq::<TokenView>::empty() =~= ts);
    assert(lex_from(s, 0) == Ok::<Seq<TokenView>, ParseErrorView>(ts));
    assert(span(ts, 0, ts.len()) =~= ts);
    lemma_parse_tokens(f, ascii, ts, 0);
    assert(phrase_ends(ts, ts.len())) by {
        assert forall|l: nat| 1 <= l <= 5 implies !has_kind(
            ts,
            ts.len(),
            #[trigger] operator(l),
        ) by {}
    }
    lemma_parse_up(ts, 0, f, ts.len(), 5);
}

/// Round trip in Unicode symbols.
pub proof fn lemma_parse_pretty(f: FormulaView)
    requires
        names_ok(f),
    ensures
        formula_of_text(f.pretty()) == Ok::<FormulaView, ParseErrorView>(f),
{
    lemma_parse_printed(f, false);
}

/// Round trip in ASCII symbols.
pub proof fn lemma_parse_pretty_ascii(f: FormulaView)
    requires
        names_ok(f),
    ensures
        formula_of_text(f.pretty_ascii()) == Ok::<FormulaView, ParseErrorView>(f),
{
    lemma_parse_printed(f, true);
}

} // verus!
