//! The concrete syntax of formulas and sequents: a lexer from characters to
//! tokens and a parser from tokens to formulas.
//!
//! Unary `!` and `?` bind tightest, then `⊗`/`*`, `⊕`/`+`, `&`, `⅋`/`|` and
//! `⊸`/`-o`; every binary operator groups to the right. An atom is a letter
//! followed by letters, digits and underscores; `^` or `⊥` behind an atom
//! negates it. The units are `1`, `⊥`/`bot`, `⊤`/`top` and `0`.

use vstd::prelude::*;
use vstd::string::StrSliceExecFns;
use vstd::string::StringExecFns;
use crate::formula::{Formula, FormulaView};
use crate::sequent::{TwoSidedSequent, TwoSidedSequentView, formula_views};
use crate::text::glue2;

verus! {

/// What went wrong in parsing, with the text that it went wrong at.
#[derive(Debug, Eq)]
pub enum ParseError {
    /// A token where the grammar allows none, or another
    UnexpectedToken(String),
    /// A character that starts no token
    UnknownOperator(String),
    /// A rule where the grammar allows none
    UnexpectedRule(String),
    /// Any other error
    General(String),
}

/// The mathematical value of a [`ParseError`].
pub ghost enum ParseErrorView {
    UnexpectedToken(Seq<char>),
    UnknownOperator(Seq<char>),
    UnexpectedRule(Seq<char>),
    General(Seq<char>),
}

impl View for ParseError {
    type V = ParseErrorView;

    open spec fn view(&self) -> ParseErrorView {
        match self {
            ParseError::UnexpectedToken(s) => ParseErrorView::UnexpectedToken(s@),
            ParseError::UnknownOperator(s) => ParseErrorView::UnknownOperator(s@),
            ParseError::UnexpectedRule(s) => ParseErrorView::UnexpectedRule(s@),
            ParseError::General(s) => ParseErrorView::General(s@),
        }
    }
}

impl ParseErrorView {
    /// The error as a sentence.
    pub open spec fn message(self) -> Seq<char> {
        match self {
            ParseErrorView::UnexpectedToken(s) => "Unexpected token: "@ + s,
            ParseErrorView::UnknownOperator(s) => "Unknown operator: "@ + s,
            ParseErrorView::UnexpectedRule(s) => "Unexpected rule: "@ + s,
            ParseErrorView::General(s) => "Parse error: "@ + s,
        }
    }
}

impl PartialEq for ParseError {
    fn eq(&self, other: &ParseError) -> (r: bool) {
        self.same(other)
    }
}

impl vstd::std_specs::cmp::PartialEqSpecImpl for ParseError {
    open spec fn obeys_eq_spec() -> bool {
        true
    }

    open spec fn eq_spec(&self, other: &ParseError) -> bool {
        self@ == other@
    }
}

impl Clone for ParseError {
    fn clone(&self) -> (r: Self)
        ensures
            r@ == self@,
    {
        match self {
            ParseError::UnexpectedToken(s) => ParseError::UnexpectedToken(s.clone()),
            ParseError::UnknownOperator(s) => ParseError::UnknownOperator(s.clone()),
            ParseError::UnexpectedRule(s) => ParseError::UnexpectedRule(s.clone()),
            ParseError::General(s) => ParseError::General(s.clone()),
        }
    }
}

impl ParseError {
    /// Tells whether two errors are the same, with the text they hold.
    pub fn same(&self, other: &ParseError) -> (r: bool)
        ensures
            r == (self@ == other@),
    {
        match (self, other) {
            (ParseError::UnexpectedToken(a), ParseError::UnexpectedToken(b)) => *a == *b,
            (ParseError::UnknownOperator(a), ParseError::UnknownOperator(b)) => *a == *b,
            (ParseError::UnexpectedRule(a), ParseError::UnexpectedRule(b)) => *a == *b,
            (ParseError::General(a), ParseError::General(b)) => *a == *b,
            _ => false,
        }
    }

    /// Writes the error as a sentence.
    pub fn message(&self) -> (r: String)
        ensures
            r@ == self@.message(),
    {
        match self {
            ParseError::UnexpectedToken(s) => glue2("Unexpected token: ", s.as_str()),
            ParseError::UnknownOperator(s) => glue2("Unknown operator: ", s.as_str()),
            ParseError::UnexpectedRule(s) => glue2("Unexpected rule: ", s.as_str()),
            ParseError::General(s) => glue2("Parse error: ", s.as_str()),
        }
    }
}

/// The kinds of tokens.
#[derive(Debug, Clone, Copy, PartialEq, Eq, Structural)]
pub enum TokenKind {
    /// An identifier
    Ident,
    /// `!`
    Bang,
    /// `?`
    Quest,
    /// `⊗` or `*`
    Tensor,
    /// `⊕` or `+`
    Plus,
    /// `&`
    With,
    /// `⅋` or `|`
    Par,
    /// `⊸` or `-o`
    Lolli,
    /// `1`
    One,
    /// `0`
    Zero,
    /// `⊥`: the unit, or the negation behind an atom
    Perp,
    /// `bot`
    Bot,
    /// `⊤` or `top`
    Top,
    /// `^`
    Caret,
    /// `(`
    Open,
    /// `)`
    Close,
    /// `,`
    Comma,
    /// `⊢` or `|-`
    Turnstile,
}

/// A token: its kind and the text that it was read from.
#[derive(Debug)]
pub struct Token {
    pub kind: TokenKind,
    pub text: String,
}

/// The mathematical value of a [`Token`].
pub ghost struct TokenView {
    pub kind: TokenKind,
    pub text: Seq<char>,
}

impl View for Token {
    type V = TokenView;

    open spec fn view(&self) -> TokenView {
        TokenView { kind: self.kind, text: self.text@ }
    }
}

/// The mathematical values of a sequence of tokens.
pub open spec fn token_views(v: Seq<Token>) -> Seq<TokenView> {
    Seq::new(v.len(), |i: int| v[i]@)
}

/// Whether the character separates tokens without being one.
pub open spec fn is_space(c: char) -> bool {
    c == ' ' || c == '\t' || c == '\n' || c == '\r'
}

/// Whether the character is an ASCII letter.
pub open spec fn is_letter(c: char) -> bool {
    ('a' <= c && c <= 'z') || ('A' <= c && c <= 'Z')
}

/// Whether the character can go on an identifier.
pub open spec fn is_ident_char(c: char) -> bool {
    is_letter(c) || ('0' <= c && c <= '9') || c == '_'
}

/// The kind of the token that the character makes by itself.
pub open spec fn symbol_kind(c: char) -> Option<TokenKind> {
    if c == '!' {
        Some(TokenKind::Bang)
    } else if c == '?' {
        Some(TokenKind::Quest)
    } else if c == '*' || c == '⊗' {
        Some(TokenKind::Tensor)
    } else if c == '+' || c == '⊕' {
        Some(TokenKind::Plus)
    } else if c == '&' {
        Some(TokenKind::With)
    } else if c == '|' || c == '⅋' {
        Some(TokenKind::Par)
    } else if c == '⊸' {
        Some(TokenKind::Lolli)
    } else if c == '1' {
        Some(TokenKind::One)
    } else if c == '0' {
        Some(TokenKind::Zero)
    } else if c == '⊥' {
        Some(TokenKind::Perp)
    } else if c == '⊤' {
        Some(TokenKind::Top)
    } else if c == '^' {
        Some(TokenKind::Caret)
    } else if c == '(' {
        Some(TokenKind::Open)
    } else if c == ')' {
        Some(TokenKind::Close)
    } else if c == ',' {
        Some(TokenKind::Comma)
    } else if c == '⊢' {
        Some(TokenKind::Turnstile)
    } else {
        None
    }
}

/// Where the identifier characters from `pos` on end.
pub open spec fn ident_end(s: Seq<char>, pos: nat) -> nat
    decreases s.len() - pos,
{
    if pos < s.len() && is_ident_char(s[pos as int]) {
        ident_end(s, pos + 1)
    } else {
        pos
    }
}

/// The kind of a word: `bot` and `top` are units, every other word is an
/// identifier.
pub open spec fn word_kind(word: Seq<char>) -> TokenKind {
    if word == seq!['b', 'o', 't'] {
        TokenKind::Bot
    } else if word == seq!['t', 'o', 'p'] {
        TokenKind::Top
    } else {
        TokenKind::Ident
    }
}

/// The token in front of the tokens that follow it, or the error in lexing
/// what follows.
pub open spec fn token_then(
    t: TokenView,
    rest: Result<Seq<TokenView>, ParseErrorView>,
) -> Result<Seq<TokenView>, ParseErrorView> {
    match rest {
        Ok(tokens) => Ok(seq![t] + tokens),
        Err(e) => Err(e),
    }
}

/// The tokens of the text from `pos` on. A character that starts no token
/// is an unknown operator.
pub open spec fn lex_from(s: Seq<char>, pos: nat) -> Result<Seq<TokenView>, ParseErrorView>
    decreases s.len() - pos,
{
    if pos >= s.len() {
        Ok(Seq::empty())
    } else {
        let c = s[pos as int];
        if is_space(c) {
            lex_from(s, pos + 1)
        } else if is_letter(c) {
            let end = ident_end(s, pos + 1);
            proof {
                lemma_ident_end_bounds(s, pos + 1);
            }
            let word = s.subrange(pos as int, end as int);
            token_then(TokenView { kind: word_kind(word), text: word }, lex_from(s, end))
        } else if c == '|' && pos + 1 < s.len() && s[pos + 1 as int] == '-' {
            token_then(
                TokenView {
                    kind: TokenKind::Turnstile,
                    text: s.subrange(pos as int, pos + 2 as int),
                },
                lex_from(s, pos + 2),
            )
        } else if c == '-' && pos + 1 < s.len() && s[pos + 1 as int] == 'o' {
            token_then(
                TokenView { kind: TokenKind::Lolli, text: s.subrange(pos as int, pos + 2 as int) },
                lex_from(s, pos + 2),
            )
        } else {
            match symbol_kind(c) {
                Some(kind) => token_then(
                    TokenView { kind, text: s.subrange(pos as int, pos + 1 as int) },
                    lex_from(s, pos + 1),
                ),
                None => Err(
                    ParseErrorView::UnknownOperator(s.subrange(pos as int, pos + 1 as int)),
                ),
            }
        }
    }
}

/// An identifier ends at or after where it is looked for, within the text.
pub proof fn lemma_ident_end_bounds(s: Seq<char>, pos: nat)
    requires
        pos <= s.len(),
    ensures
        pos <= ident_end(s, pos) <= s.len(),
    decreases s.len() - pos,
{
    if pos < s.len() && is_ident_char(s[pos as int]) {
        lemma_ident_end_bounds(s, pos + 1);
    }
}

/// The tokens read so far in front of what lexing the rest gives.
pub open spec fn tokens_then(
    front: Seq<TokenView>,
    rest: Result<Seq<TokenView>, ParseErrorView>,
) -> Result<Seq<TokenView>, ParseErrorView> {
    match rest {
        Ok(tokens) => Ok(front + tokens),
        Err(e) => Err(e),
    }
}

/// The characters of a string.
fn chars_of(s: &str) -> (r: Vec<char>)
    ensures
        r@ == s@,
{
    let n = s.unicode_len();
    let mut out: Vec<char> = Vec::new();
    let mut i: usize = 0;
    while i < n
        invariant
            i <= n,
            n == s@.len(),
            out@ == s@.take(i as int),
        decreases n - i,
    {
        out.push(s.get_char(i));
        assert(out@ =~= s@.take(i + 1));
        i = i + 1;
    }
    assert(s@.take(n as int) =~= s@);
    out
}

/// Tells whether the character separates tokens.
fn space(c: char) -> (r: bool)
    ensures
        r == is_space(c),
{
    c == ' ' || c == '\t' || c == '\n' || c == '\r'
}

/// Tells whether the character is an ASCII letter.
fn letter(c: char) -> (r: bool)
    ensures
        r == is_letter(c),
{
    ('a' <= c && c <= 'z') || ('A' <= c && c <= 'Z')
}

/// Tells whether the character can go on an identifier.
fn ident_char(c: char) -> (r: bool)
    ensures
        r == is_ident_char(c),
{
    letter(c) || ('0' <= c && c <= '9') || c == '_'
}

/// The kind of the token that the character makes by itself.
fn symbol(c: char) -> (r: Option<TokenKind>)
    ensures
        r == symbol_kind(c),
{
    if c == '!' {
        Some(TokenKind::Bang)
    } else if c == '?' {
        Some(TokenKind::Quest)
    } else if c == '*' || c == '⊗' {
        Some(TokenKind::Tensor)
    } else if c == '+' || c == '⊕' {
        Some(TokenKind::Plus)
    } else if c == '&' {
        Some(TokenKind::With)
    } else if c == '|' || c == '⅋' {
        Some(TokenKind::Par)
    } else if c == '⊸' {
        Some(TokenKind::Lolli)
    } else if c == '1' {
        Some(TokenKind::One)
    } else if c == '0' {
        Some(TokenKind::Zero)
    } else if c == '⊥' {
        Some(TokenKind::Perp)
    } else if c == '⊤' {
        Some(TokenKind::Top)
    } else if c == '^' {
        Some(TokenKind::Caret)
    } else if c == '(' {
        Some(TokenKind::Open)
    } else if c == ')' {
        Some(TokenKind::Close)
    } else if c == ',' {
        Some(TokenKind::Comma)
    } else if c == '⊢' {
        Some(TokenKind::Turnstile)
    } else {
        None
    }
}

/// Reads the tokens of a text.
pub fn lex(input: &str) -> (r: Result<Vec<Token>, ParseError>)
    ensures
        match r {
            Ok(tokens) => lex_from(input@, 0) == Ok::<Seq<TokenView>, ParseErrorView>(
                token_views(tokens@),
            ),
            Err(e) => lex_from(input@, 0) == Err::<Seq<TokenView>, ParseErrorView>(e@),
        },
{
    let chars = chars_of(input);
    let n = chars.len();
    let mut tokens: Vec<Token> = Vec::new();
    let mut pos: usize = 0;
    assert(token_views(tokens@) =~= Seq::empty());
    assert(tokens_then(token_views(tokens@), lex_from(input@, 0)) == lex_from(input@, 0)) by {
        let r = lex_from(input@, 0);
        if r is Ok {
            assert(Seq::<TokenView>::empty() + r->Ok_0 =~= r->Ok_0);
        }
    }
    while pos < n
        invariant
            pos <= n,
            n == chars@.len(),
            chars@ == input@,
            lex_from(input@, 0) == tokens_then(
                token_views(tokens@),
                lex_from(input@, pos as nat),
            ),
        decreases n - pos,
    {
        let c = chars[pos];
        let ghost front = token_views(tokens@);
        if space(c) {
            pos = pos + 1;
        } else {
            let next: usize;
            let kind: TokenKind;
            if letter(c) {
                let mut end = pos + 1;
                while end < n && ident_char(chars[end])
                    invariant
                        pos < end <= n,
                        n == chars@.len(),
                        chars@ == input@,
                        ident_end(input@, (pos + 1) as nat) == ident_end(input@, end as nat),
                    decreases n - end,
                {
                    end = end + 1;
                }
                let is_bot = end - pos == 3 && chars[pos] == 'b' && chars[pos + 1] == 'o'
                    && chars[pos + 2] == 't';
                let is_top = end - pos == 3 && chars[pos] == 't' && chars[pos + 1] == 'o'
                    && chars[pos + 2] == 'p';
                proof {
                    let word = input@.subrange(pos as int, end as int);
                    if is_bot {
                        assert(word =~= seq!['b', 'o', 't']);
                    } else {
                        if word == seq!['b', 'o', 't'] {
                            assert(word.len() == 3);
                            assert(word[0] == 'b' && word[1] == 'o' && word[2] == 't');
                        }
                    }
                    if is_top {
                        assert(word =~= seq!['t', 'o', 'p']);
                    } else {
                        if word == seq!['t', 'o', 'p'] {
                            assert(word.len() == 3);
                            assert(word[0] == 't' && word[1] == 'o' && word[2] == 'p');
                        }
                    }
                }
                kind = if is_bot {
                    TokenKind::Bot
                } else if is_top {
                    TokenKind::Top
                } else {
                    TokenKind::Ident
                };
                next = end;
            } else if c == '|' && pos + 1 < n && chars[pos + 1] == '-' {
                kind = TokenKind::Turnstile;
                next = pos + 2;
            } else if c == '-' && pos + 1 < n && chars[pos + 1] == 'o' {
                kind = TokenKind::Lolli;
                next = pos + 2;
            } else {
                match symbol(c) {
                    Some(k) => {
                        kind = k;
                        next = pos + 1;
                    },
                    None => {
                        let text = String::from_str(input.substring_char(pos, pos + 1));
                        return Err(ParseError::UnknownOperator(text));
                    },
                }
            }
            let text = String::from_str(input.substring_char(pos, next));
            let token = Token { kind, text };
            let ghost tv = token@;
            tokens.push(token);
            proof {
                assert(token_views(tokens@) =~= front.push(tv));
                let rest = lex_from(input@, next as nat);
                assert(lex_from(input@, pos as nat) == token_then(tv, rest));
                if rest is Ok {
                    assert(front + (seq![tv] + rest->Ok_0) =~= front.push(tv) + rest->Ok_0);
                }
            }
            pos = next;
        }
    }
    proof {
        assert(token_views(tokens@) + Seq::<TokenView>::empty() =~= token_views(tokens@));
    }
    Ok(tokens)
}

/// What parsing a formula at some position gives: the formula and the
/// number of tokens that it takes up, or an error.
pub type Parsed = Result<(FormulaView, nat), ParseErrorView>;

/// What parsing a list of formulas gives: the formulas and the number of
/// tokens that they take up, or an error.
pub type ParsedList = Result<(Seq<FormulaView>, nat), ParseErrorView>;

/// The error for the token at `pos`, which the grammar does not allow
/// there, or for the end of the input where it comes too early.
pub open spec fn unexpected(tokens: Seq<TokenView>, pos: nat) -> ParseErrorView {
    if pos < tokens.len() {
        ParseErrorView::UnexpectedToken(tokens[pos as int].text)
    } else {
        ParseErrorView::General("unexpected end of input"@)
    }
}

/// Whether the token at `pos` is there and has the given kind.
pub open spec fn has_kind(tokens: Seq<TokenView>, pos: nat, kind: TokenKind) -> bool {
    pos < tokens.len() && tokens[pos as int].kind == kind
}

/// The operator of each level of binary operators, from the tightest, at
/// level 1, to the loosest, at level 5.
pub open spec fn operator(level: nat) -> TokenKind {
    if level == 1 {
        TokenKind::Tensor
    } else if level == 2 {
        TokenKind::Plus
    } else if level == 3 {
        TokenKind::With
    } else if level == 4 {
        TokenKind::Par
    } else {
        TokenKind::Lolli
    }
}

/// The formula that the operator of the level makes of two formulas.
pub open spec fn combine(level: nat, left: FormulaView, right: FormulaView) -> FormulaView {
    if level == 1 {
        FormulaView::Tensor(Box::new(left), Box::new(right))
    } else if level == 2 {
        FormulaView::Plus(Box::new(left), Box::new(right))
    } else if level == 3 {
        FormulaView::With(Box::new(left), Box::new(right))
    } else if level == 4 {
        FormulaView::Par(Box::new(left), Box::new(right))
    } else {
        FormulaView::Lolli(Box::new(left), Box::new(right))
    }
}

/// The formula at `pos` whose loosest operator is that of `level`. At level
/// 0 it is a formula behind any number of `!` and `?`. At a higher level
/// it is a formula of the level below, and, if the operator of the level
/// follows, that operator and a formula of the same level, which makes the
/// operators group to the right.
pub open spec fn parse_level(tokens: Seq<TokenView>, pos: nat, level: nat) -> Parsed
    decreases tokens.len() - pos, level + 1,
{
    if level == 0 {
        if has_kind(tokens, pos, TokenKind::Bang) {
            match parse_level(tokens, pos + 1, 0) {
                Ok((f, used)) => Ok((FormulaView::OfCourse(Box::new(f)), used + 1)),
                Err(e) => Err(e),
            }
        } else if has_kind(tokens, pos, TokenKind::Quest) {
            match parse_level(tokens, pos + 1, 0) {
                Ok((f, used)) => Ok((FormulaView::WhyNot(Box::new(f)), used + 1)),
                Err(e) => Err(e),
            }
        } else {
            parse_primary(tokens, pos)
        }
    } else {
        match parse_level(tokens, pos, (level - 1) as nat) {
            Err(e) => Err(e),
            Ok((left, used)) => if has_kind(tokens, pos + used, operator(level)) {
                match parse_level(tokens, pos + used + 1, level) {
                    Err(e) => Err(e),
                    Ok((right, more)) => Ok((combine(level, left, right), used + 1 + more)),
                }
            } else {
                Ok((left, used))
            },
        }
    }
}

/// The formula at `pos` that needs no brackets: an atom, negated if `^` or
/// `⊥` follows it, a unit, or any formula in brackets.
pub open spec fn parse_primary(tokens: Seq<TokenView>, pos: nat) -> Parsed
    decreases tokens.len() - pos, 0nat,
{
    if pos >= tokens.len() {
        Err(unexpected(tokens, pos))
    } else {
        let t = tokens[pos as int];
        match t.kind {
            TokenKind::Ident => if has_kind(tokens, pos + 1, TokenKind::Caret) || has_kind(
                tokens,
                pos + 1,
                TokenKind::Perp,
            ) {
                Ok((FormulaView::NegAtom(t.text), 2))
            } else {
                Ok((FormulaView::Atom(t.text), 1))
            },
            TokenKind::One => Ok((FormulaView::One, 1)),
            TokenKind::Zero => Ok((FormulaView::Zero, 1)),
            TokenKind::Perp => Ok((FormulaView::Bottom, 1)),
            TokenKind::Bot => Ok((FormulaView::Bottom, 1)),
            TokenKind::Top => Ok((FormulaView::Top, 1)),
            TokenKind::Open => match parse_level(tokens, pos + 1, 5) {
                Err(e) => Err(e),
                Ok((f, used)) => if has_kind(tokens, pos + 1 + used, TokenKind::Close) {
                    Ok((f, used + 2))
                } else {
                    Err(unexpected(tokens, pos + 1 + used))
                },
            },
            _ => Err(unexpected(tokens, pos)),
        }
    }
}

/// The formulas at `pos`, one or more, with commas between them.
pub open spec fn parse_items(tokens: Seq<TokenView>, pos: nat) -> ParsedList
    decreases tokens.len() - pos,
{
    match parse_level(tokens, pos, 5) {
        Err(e) => Err(e),
        Ok((f, used)) => if has_kind(tokens, pos + used, TokenKind::Comma) {
            match parse_items(tokens, pos + used + 1) {
                Err(e) => Err(e),
                Ok((rest, more)) => Ok((seq![f] + rest, used + 1 + more)),
            }
        } else {
            Ok((seq![f], used))
        },
    }
}

/// One side of a sequent at `pos`: no formula, where the input ends or the
/// turnstile stands there, or formulas with commas between them.
pub open spec fn parse_side(tokens: Seq<TokenView>, pos: nat) -> ParsedList {
    if pos >= tokens.len() || has_kind(tokens, pos, TokenKind::Turnstile) {
        Ok((Seq::empty(), 0))
    } else {
        parse_items(tokens, pos)
    }
}

/// The formula that the tokens make, all of them.
pub open spec fn formula_of_tokens(tokens: Seq<TokenView>) -> Result<FormulaView, ParseErrorView> {
    match parse_level(tokens, 0, 5) {
        Err(e) => Err(e),
        Ok((f, used)) => if used < tokens.len() {
            Err(unexpected(tokens, used))
        } else {
            Ok(f)
        },
    }
}

/// The sequent that the tokens make, all of them: a side, the turnstile,
/// a side.
pub open spec fn sequent_of_tokens(tokens: Seq<TokenView>) -> Result<
    TwoSidedSequentView,
    ParseErrorView,
> {
    match parse_side(tokens, 0) {
        Err(e) => Err(e),
        Ok((antecedent, used)) => if !has_kind(tokens, used, TokenKind::Turnstile) {
            if used < tokens.len() {
                Err(unexpected(tokens, used))
            } else {
                Err(ParseErrorView::General("missing turnstile"@))
            }
        } else {
            match parse_side(tokens, used + 1) {
                Err(e) => Err(e),
                Ok((succedent, more)) => if used + 1 + more < tokens.len() {
                    Err(unexpected(tokens, used + 1 + more))
                } else {
                    Ok(TwoSidedSequentView { antecedent, succedent })
                },
            }
        }
    }
}

/// The formula that the text denotes, or the error in it.
pub open spec fn formula_of_text(s: Seq<char>) -> Result<FormulaView, ParseErrorView> {
    match lex_from(s, 0) {
        Err(e) => Err(e),
        Ok(tokens) => formula_of_tokens(tokens),
    }
}

/// The sequent that the text denotes, or the error in it.
pub open spec fn sequent_of_text(s: Seq<char>) -> Result<TwoSidedSequentView, ParseErrorView> {
    match lex_from(s, 0) {
        Err(e) => Err(e),
        Ok(tokens) => sequent_of_tokens(tokens),
    }
}

/// What a parser of one formula handed back, as mathematics.
pub open spec fn parsed_view(r: Result<(Formula, usize), ParseError>) -> Parsed {
    match r {
        Ok((f, used)) => Ok((f@, used as nat)),
        Err(e) => Err(e@),
    }
}

/// What a parser of a list handed back, as mathematics.
pub open spec fn parsed_list_view(r: Result<(Vec<Formula>, usize), ParseError>) -> ParsedList {
    match r {
        Ok((fs, used)) => Ok((formula_views(fs@), used as nat)),
        Err(e) => Err(e@),
    }
}

/// A formula takes up at least one token, and no more than there are.
pub proof fn lemma_parse_level_uses(tokens: Seq<TokenView>, pos: nat, level: nat)
    ensures
        parse_level(tokens, pos, level) matches Ok((_, used)) ==> 1 <= used && pos + used
            <= tokens.len(),
    decreases tokens.len() - pos, level + 1,
{
    if level == 0 {
        if has_kind(tokens, pos, TokenKind::Bang) || has_kind(tokens, pos, TokenKind::Quest) {
            lemma_parse_level_uses(tokens, pos + 1, 0);
        } else {
            lemma_parse_primary_uses(tokens, pos);
        }
    } else {
        lemma_parse_level_uses(tokens, pos, (level - 1) as nat);
        match parse_level(tokens, pos, (level - 1) as nat) {
            Err(e) => {},
            Ok((left, used)) => {
                if has_kind(tokens, pos + used, operator(level)) {
                    lemma_parse_level_uses(tokens, pos + used + 1, level);
                }
            },
        }
    }
}

/// A formula that needs no brackets takes up at least one token, and no
/// more than there are.
pub proof fn lemma_parse_primary_uses(tokens: Seq<TokenView>, pos: nat)
    ensures
        parse_primary(tokens, pos) matches Ok((_, used)) ==> 1 <= used && pos + used
            <= tokens.len(),
    decreases tokens.len() - pos, 0nat,
{
    if pos < tokens.len() && tokens[pos as int].kind == TokenKind::Open {
        lemma_parse_level_uses(tokens, pos + 1, 5);
    }
}

/// The error for the token at `pos`, or for the end of the input.
fn unexpected_at(tokens: &Vec<Token>, pos: usize) -> (r: ParseError)
    ensures
        r@ == unexpected(token_views(tokens@), pos as nat),
{
    if pos < tokens.len() {
        ParseError::UnexpectedToken(tokens[pos].text.clone())
    } else {
        ParseError::General(String::from_str("unexpected end of input"))
    }
}

/// Tells whether the token at `pos` is there and has the given kind.
fn kind_is(tokens: &Vec<Token>, pos: usize, kind: TokenKind) -> (r: bool)
    ensures
        r == has_kind(token_views(tokens@), pos as nat, kind),
{
    pos < tokens.len() && tokens[pos].kind == kind
}

/// The operator of a level.
fn operator_of(level: u8) -> (r: TokenKind)
    ensures
        r == operator(level as nat),
{
    if level == 1 {
        TokenKind::Tensor
    } else if level == 2 {
        TokenKind::Plus
    } else if level == 3 {
        TokenKind::With
    } else if level == 4 {
        TokenKind::Par
    } else {
        TokenKind::Lolli
    }
}

/// The formula that the operator of the level makes of two formulas.
fn combined(level: u8, left: Formula, right: Formula) -> (r: Formula)
    ensures
        r@ == combine(level as nat, left@, right@),
{
    if level == 1 {
        Formula::Tensor(Box::new(left), Box::new(right))
    } else if level == 2 {
        Formula::Plus(Box::new(left), Box::new(right))
    } else if level == 3 {
        Formula::With(Box::new(left), Box::new(right))
    } else if level == 4 {
        Formula::Par(Box::new(left), Box::new(right))
    } else {
        Formula::Lolli(Box::new(left), Box::new(right))
    }
}

/// Parses the formula at `pos` whose loosest operator is that of `level`.
fn level_at(tokens: &Vec<Token>, pos: usize, level: u8) -> (r: Result<(Formula, usize), ParseError>)
    requires
        pos <= tokens.len(),
    ensures
        parsed_view(r) == parse_level(token_views(tokens@), pos as nat, level as nat),
        r is Ok ==> 1 <= r->Ok_0.1 && pos + r->Ok_0.1 <= tokens.len(),
    decreases tokens.len() - pos, level + 1,
{
    let ghost tv = token_views(tokens@);
    proof {
        assert(tv.len() == tokens.len() <= usize::MAX);
        lemma_parse_level_uses(tv, pos as nat, level as nat);
    }
    if level == 0 {
        if kind_is(tokens, pos, TokenKind::Bang) {
            proof {
                lemma_parse_level_uses(tv, (pos + 1) as nat, 0);
            }
            match level_at(tokens, pos + 1, 0) {
                Ok((f, used)) => Ok((Formula::OfCourse(Box::new(f)), used + 1)),
                Err(e) => Err(e),
            }
        } else if kind_is(tokens, pos, TokenKind::Quest) {
            proof {
                lemma_parse_level_uses(tv, (pos + 1) as nat, 0);
            }
            match level_at(tokens, pos + 1, 0) {
                Ok((f, used)) => Ok((Formula::WhyNot(Box::new(f)), used + 1)),
                Err(e) => Err(e),
            }
        } else {
            primary_at(tokens, pos)
        }
    } else {
        proof {
            lemma_parse_level_uses(tv, pos as nat, (level - 1) as nat);
        }
        match level_at(tokens, pos, level - 1) {
            Err(e) => Err(e),
            Ok((left, used)) => {
                if kind_is(tokens, pos + used, operator_of(level)) {
                    proof {
                        lemma_parse_level_uses(tv, (pos + used + 1) as nat, level as nat);
                    }
                    match level_at(tokens, pos + used + 1, level) {
                        Err(e) => Err(e),
                        Ok((right, more)) => Ok((combined(level, left, right), used + 1 + more)),
                    }
                } else {
                    Ok((left, used))
                }
            },
        }
    }
}

/// Parses the formula at `pos` that needs no brackets.
fn primary_at(tokens: &Vec<Token>, pos: usize) -> (r: Result<(Formula, usize), ParseError>)
    requires
        pos <= tokens.len(),
    ensures
        parsed_view(r) == parse_primary(token_views(tokens@), pos as nat),
        r is Ok ==> 1 <= r->Ok_0.1 && pos + r->Ok_0.1 <= tokens.len(),
    decreases tokens.len() - pos, 0nat,
{
    let ghost tv = token_views(tokens@);
    proof {
        assert(tv.len() == tokens.len() <= usize::MAX);
        lemma_parse_primary_uses(tv, pos as nat);
    }
    if pos >= tokens.len() {
        return Err(unexpected_at(tokens, pos));
    }
    assert(tv[pos as int] == tokens[pos as int]@);
    match tokens[pos].kind {
        TokenKind::Ident => {
            if kind_is(tokens, pos + 1, TokenKind::Caret) || kind_is(
                tokens,
                pos + 1,
                TokenKind::Perp,
            ) {
                Ok((Formula::NegAtom(tokens[pos].text.clone()), 2))
            } else {
                Ok((Formula::Atom(tokens[pos].text.clone()), 1))
            }
        },
        TokenKind::One => Ok((Formula::One, 1)),
        TokenKind::Zero => Ok((Formula::Zero, 1)),
        TokenKind::Perp => Ok((Formula::Bottom, 1)),
        TokenKind::Bot => Ok((Formula::Bottom, 1)),
        TokenKind::Top => Ok((Formula::Top, 1)),
        TokenKind::Open => {
            proof {
                lemma_parse_level_uses(tv, (pos + 1) as nat, 5);
            }
            match level_at(tokens, pos + 1, 5) {
                Err(e) => Err(e),
                Ok((f, used)) => {
                    if kind_is(tokens, pos + 1 + used, TokenKind::Close) {
                        Ok((f, used + 2))
                    } else {
                        Err(unexpected_at(tokens, pos + 1 + used))
                    }
                },
            }
        },
        _ => Err(unexpected_at(tokens, pos)),
    }
}

/// Parses the formulas at `pos`, one or more, with commas between them.
fn items_at(tokens: &Vec<Token>, pos: usize) -> (r: Result<(Vec<Formula>, usize), ParseError>)
    requires
        pos <= tokens.len(),
    ensures
        parsed_list_view(r) == parse_items(token_views(tokens@), pos as nat),
        r is Ok ==> pos + r->Ok_0.1 <= tokens.len(),
    decreases tokens.len() - pos,
{
    let ghost tv = token_views(tokens@);
    proof {
        assert(tv.len() == tokens.len() <= usize::MAX);
        lemma_parse_level_uses(tv, pos as nat, 5);
    }
    match level_at(tokens, pos, 5) {
        Err(e) => Err(e),
        Ok((f, used)) => {
            if kind_is(tokens, pos + used, TokenKind::Comma) {
                match items_at(tokens, pos + used + 1) {
                    Err(e) => Err(e),
                    Ok((rest, more)) => {
                        let mut all: Vec<Formula> = Vec::new();
                        all.push(f);
                        let mut rest = rest;
                        let ghost tail = formula_views(rest@);
                        all.append(&mut rest);
                        assert(formula_views(all@) =~= seq![f@] + tail);
                        Ok((all, used + 1 + more))
                    },
                }
            } else {
                let mut all: Vec<Formula> = Vec::new();
                all.push(f);
                assert(formula_views(all@) =~= seq![f@]);
                Ok((all, used))
            }
        },
    }
}

/// Parses one side of a sequent at `pos`.
fn side_at(tokens: &Vec<Token>, pos: usize) -> (r: Result<(Vec<Formula>, usize), ParseError>)
    requires
        pos <= tokens.len(),
    ensures
        parsed_list_view(r) == parse_side(token_views(tokens@), pos as nat),
        r is Ok ==> pos + r->Ok_0.1 <= tokens.len(),
{
    if pos >= tokens.len() || kind_is(tokens, pos, TokenKind::Turnstile) {
        let none: Vec<Formula> = Vec::new();
        assert(formula_views(none@) =~= Seq::empty());
        Ok((none, 0))
    } else {
        items_at(tokens, pos)
    }
}

/// What a parser of a whole text handed back, as mathematics.
pub open spec fn formula_result_view(r: Result<Formula, ParseError>) -> Result<
    FormulaView,
    ParseErrorView,
> {
    match r {
        Ok(f) => Ok(f@),
        Err(e) => Err(e@),
    }
}

/// What a parser of a whole text handed back, as mathematics.
pub open spec fn sequent_result_view(r: Result<TwoSidedSequent, ParseError>) -> Result<
    TwoSidedSequentView,
    ParseErrorView,
> {
    match r {
        Ok(s) => Ok(s@),
        Err(e) => Err(e@),
    }
}

/// Parses a formula. The whole text must be one formula.
pub fn parse_formula(input: &str) -> (r: Result<Formula, ParseError>)
    ensures
        formula_result_view(r) == formula_of_text(input@),
{
    match lex(input) {
        Err(e) => Err(e),
        Ok(tokens) => {
            proof {
                lemma_parse_level_uses(token_views(tokens@), 0, 5);
            }
            match level_at(&tokens, 0, 5) {
                Err(e) => Err(e),
                Ok((f, used)) => {
                    if used < tokens.len() {
                        Err(unexpected_at(&tokens, used))
                    } else {
                        Ok(f)
                    }
                },
            }
        },
    }
}

/// Parses a sequent: formulas with commas between them, the turnstile, and
/// formulas again. Either side may be empty.
pub fn parse_sequent(input: &str) -> (r: Result<TwoSidedSequent, ParseError>)
    ensures
        sequent_result_view(r) == sequent_of_text(input@),
{
    match lex(input) {
        Err(e) => Err(e),
        Ok(tokens) => {
            match side_at(&tokens, 0) {
                Err(e) => Err(e),
                Ok((antecedent, used)) => {
                    if !kind_is(&tokens, used, TokenKind::Turnstile) {
                        if used < tokens.len() {
                            Err(unexpected_at(&tokens, used))
                        } else {
                            Err(ParseError::General(String::from_str("missing turnstile")))
                        }
                    } else {
                        match side_at(&tokens, used + 1) {
                            Err(e) => Err(e),
                            Ok((succedent, more)) => {
                                if used + 1 + more < tokens.len() {
                                    Err(unexpected_at(&tokens, used + 1 + more))
                                } else {
                                    Ok(TwoSidedSequent::new(antecedent, succedent))
                                }
                            },
                        }
                    }
                },
            }
        },
    }
}

} // verus!
