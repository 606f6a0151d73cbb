//! Constraints of problem families: a conjunction of comparisons between
//! arithmetic terms over the family's parameters, such as
//! `a == 2 * (3 + 1) and b <= a`.
use vstd::prelude::*;

use crate::text::{
    append_chars, append_str, chars_of, decimal, decimal_string, first_where, is_ws, char_is_ws, last_where,
    lemma_first_where, lemma_first_where_none, lemma_last_where, push_char, slice_of, string_of_all,
};

use super::error::KnowledgeError;

verus! {

/// Deepest nesting of parentheses and unary minus, and deepest term tree,
/// that a constraint may have.
pub const MAX_NESTING_DEPTH: usize = 64;

/// A lexical token of the constraint language.
pub enum Tok {
    Ident(Seq<char>),
    Number(Seq<char>),
    Plus,
    Minus,
    Star,
    Slash,
    Eq,
    Ne,
    Ge,
    Le,
    Gt,
    Lt,
    LParen,
    RParen,
    And,
}

pub open spec fn is_digit(c: char) -> bool {
    '0' <= c && c <= '9'
}

pub open spec fn is_alpha(c: char) -> bool {
    ('a' <= c && c <= 'z') || ('A' <= c && c <= 'Z')
}

/// Characters of a number (`ident == false`) or of an identifier (`ident == true`).
pub open spec fn in_run(c: char, ident: bool) -> bool {
    if ident {
        is_alpha(c) || is_digit(c) || c == '_'
    } else {
        is_digit(c) || c == '.'
    }
}

/// The end of the run of `ident`-class characters that starts at `i`.
pub open spec fn run_end(s: Seq<char>, i: int, ident: bool) -> int
    decreases s.len() - i,
{
    if 0 <= i < s.len() && in_run(s[i], ident) {
        run_end(s, i + 1, ident)
    } else {
        i
    }
}

pub proof fn lemma_run_end(s: Seq<char>, i: int, ident: bool)
    requires
        0 <= i <= s.len(),
    ensures
        i <= run_end(s, i, ident) <= s.len(),
        forall|k: int| i <= k < run_end(s, i, ident) ==> in_run(#[trigger] s[k], ident),
        run_end(s, i, ident) < s.len() ==> !in_run(s[run_end(s, i, ident)], ident),
    decreases s.len() - i,
{
    if i < s.len() && in_run(s[i], ident) {
        lemma_run_end(s, i + 1, ident);
    }
}

/// A run of digits and dots is a number when it has a digit and at most one
/// dot: the decimal forms that `f64` parsing accepts.
pub open spec fn valid_number(t: Seq<char>) -> bool {
    &&& exists|k: int| 0 <= k < t.len() && is_digit(#[trigger] t[k])
    &&& forall|a: int, b: int| #![trigger t[a], t[b]] 0 <= a < b < t.len() && t[a] == '.' ==> t[b] != '.'
}

/// The one- or two-character operator at `i`, with its width.
pub open spec fn symbol(s: Seq<char>, i: int) -> Result<(Tok, int), Seq<char>> {
    let c = s[i];
    let next_eq = i + 1 < s.len() && s[i + 1] == '=';
    if c == '+' {
        Ok((Tok::Plus, 1))
    } else if c == '-' {
        Ok((Tok::Minus, 1))
    } else if c == '*' {
        Ok((Tok::Star, 1))
    } else if c == '/' {
        Ok((Tok::Slash, 1))
    } else if c == '(' {
        Ok((Tok::LParen, 1))
    } else if c == ')' {
        Ok((Tok::RParen, 1))
    } else if c == '=' && next_eq {
        Ok((Tok::Eq, 2))
    } else if c == '!' && next_eq {
        Ok((Tok::Ne, 2))
    } else if c == '>' && next_eq {
        Ok((Tok::Ge, 2))
    } else if c == '<' && next_eq {
        Ok((Tok::Le, 2))
    } else if c == '>' {
        Ok((Tok::Gt, 1))
    } else if c == '<' {
        Ok((Tok::Lt, 1))
    } else if c == '=' {
        Err("expected '==' but found a single '='"@)
    } else if c == '!' {
        Err("expected '!=' but found a bare '!'"@)
    } else {
        Err("unexpected character: "@.push(c))
    }
}

/// `t` in front of the tokens of `r`.
pub open spec fn cons(t: Tok, r: Result<Seq<Tok>, Seq<char>>) -> Result<Seq<Tok>, Seq<char>> {
    match r {
        Ok(rest) => Ok(seq![t] + rest),
        Err(e) => Err(e),
    }
}

/// The tokens of `s` from position `i` on: whitespace separates tokens; a
/// run of digits and dots is a number; a run of letters, digits and `_` that
/// starts with a letter or `_` is an identifier, or the keyword `and`.
pub open spec fn tokenize_from(s: Seq<char>, i: int) -> Result<Seq<Tok>, Seq<char>>
    decreases s.len() - i,
{
    if i < 0 || i >= s.len() {
        Ok(Seq::empty())
    } else {
        let c = s[i];
        if is_ws(c) {
            tokenize_from(s, i + 1)
        } else if in_run(c, false) {
            let j = run_end(s, i, false);
            proof {
                lemma_run_end(s, i, false);
            }
            let text = s.subrange(i, j);
            if !valid_number(text) {
                Err("invalid number: "@ + text)
            } else {
                cons(Tok::Number(text), tokenize_from(s, j))
            }
        } else if is_alpha(c) || c == '_' {
            let j = run_end(s, i, true);
            proof {
                lemma_run_end(s, i, true);
            }
            let text = s.subrange(i, j);
            cons(if text == "and"@ { Tok::And } else { Tok::Ident(text) }, tokenize_from(s, j))
        } else {
            match symbol(s, i) {
                Ok((t, w)) => cons(t, tokenize_from(s, i + w)),
                Err(e) => Err(e),
            }
        }
    }
}

/// The tokens `p` in front of those of `r`.
pub open spec fn prefixed(p: Seq<Tok>, r: Result<Seq<Tok>, Seq<char>>) -> Result<Seq<Tok>, Seq<char>> {
    match r {
        Ok(rest) => Ok(p + rest),
        Err(e) => Err(e),
    }
}

proof fn lemma_prefixed_cons(p: Seq<Tok>, t: Tok, r: Result<Seq<Tok>, Seq<char>>)
    ensures
        prefixed(p, cons(t, r)) == prefixed(p.push(t), r),
{
    if let Ok(rest) = r {
        assert(p + (seq![t] + rest) =~= p.push(t) + rest);
    }
}

pub open spec fn tokenize_spec(s: Seq<char>) -> Result<Seq<Tok>, Seq<char>> {
    tokenize_from(s, 0)
}

/// A token as the parser holds it.
pub enum Token {
    Ident(Vec<char>),
    Number(Vec<char>),
    Plus,
    Minus,
    Star,
    Slash,
    Eq,
    Ne,
    Ge,
    Le,
    Gt,
    Lt,
    LParen,
    RParen,
    And,
}

pub open spec fn tok_v(t: Token) -> Tok {
    match t {
        Token::Ident(v) => Tok::Ident(v@),
        Token::Number(v) => Tok::Number(v@),
        Token::Plus => Tok::Plus,
        Token::Minus => Tok::Minus,
        Token::Star => Tok::Star,
        Token::Slash => Tok::Slash,
        Token::Eq => Tok::Eq,
        Token::Ne => Tok::Ne,
        Token::Ge => Tok::Ge,
        Token::Le => Tok::Le,
        Token::Gt => Tok::Gt,
        Token::Lt => Tok::Lt,
        Token::LParen => Tok::LParen,
        Token::RParen => Tok::RParen,
        Token::And => Tok::And,
    }
}

pub open spec fn toks_v(ts: Seq<Token>) -> Seq<Tok> {
    ts.map_values(|t: Token| tok_v(t))
}

fn is_digit_char(c: char) -> (r: bool)
    ensures
        r == is_digit(c),
{
    '0' <= c && c <= '9'
}

fn in_run_char(c: char, ident: bool) -> (r: bool)
    ensures
        r == in_run(c, ident),
{
    if ident {
        ('a' <= c && c <= 'z') || ('A' <= c && c <= 'Z') || is_digit_char(c) || c == '_'
    } else {
        is_digit_char(c) || c == '.'
    }
}

fn number_is_valid(t: &Vec<char>) -> (r: bool)
    ensures
        r == valid_number(t@),
{
    let mut digit = false;
    let mut dot: Option<usize> = None;
    let mut i: usize = 0;
    while i < t.len()
        invariant
            i <= t.len(),
            digit == exists|k: int| 0 <= k < i && is_digit(#[trigger] t@[k]),
            dot matches Some(d) ==> d < i && t@[d as int] == '.',
            dot is None ==> forall|k: int| 0 <= k < i ==> t@[k] != '.',
            forall|a: int, b: int| #![trigger t@[a], t@[b]] 0 <= a < b < i && t@[a] == '.' ==> t@[b] != '.',
        decreases t.len() - i,
    {
        if is_digit_char(t[i]) {
            digit = true;
        }
        if t[i] == '.' {
            if let Some(d) = dot {
                assert(t@[d as int] == '.' && t@[i as int] == '.');
                return false;
            }
            dot = Some(i);
        }
        i += 1;
    }
    digit
}

/// Splits a constraint into tokens.
fn tokenize(s: &Vec<char>) -> (r: Result<Vec<Token>, String>)
    ensures
        match (r, tokenize_spec(s@)) {
            (Ok(ts), Ok(et)) => toks_v(ts@) == et,
            (Err(m), Err(em)) => m@ == em,
            _ => false,
        },
{
    let mut tokens: Vec<Token> = Vec::new();
    let mut i: usize = 0;
    assert(toks_v(tokens@) =~= Seq::<Tok>::empty());
    assert(prefixed(Seq::empty(), tokenize_from(s@, 0)) == tokenize_from(s@, 0));
    while i < s.len()
        invariant
            i <= s.len(),
            tokenize_from(s@, 0) == prefixed(toks_v(tokens@), tokenize_from(s@, i as int)),
        decreases s.len() - i,
    {
        let c = s[i];
        let ghost before = tokens@;
        if char_is_ws(c) {
            i += 1;
        } else if in_run_char(c, false) || ('a' <= c && c <= 'z') || ('A' <= c && c <= 'Z') || c == '_' {
            let ident = !in_run_char(c, false);
            let mut j: usize = i;
            while j < s.len() && in_run_char(s[j], ident)
                invariant
                    i <= j <= s.len(),
                    run_end(s@, i as int, ident) == run_end(s@, j as int, ident),
                decreases s.len() - j,
            {
                j += 1;
            }
            proof {
                lemma_run_end(s@, i as int, ident);
                lemma_run_end(s@, j as int, ident);
                assert(run_end(s@, j as int, ident) == j);
            }
            let text = slice_of(s, i, j);
            if ident {
                proof {
                    reveal_strlit("and");
                }
                let and: Vec<char> = vec!['a', 'n', 'd'];
                assert(and@ =~= "and"@);
                let tok = if crate::text::chars_eq(&text, &and) { Token::And } else { Token::Ident(text) };
                tokens.push(tok);
            } else {
                if !number_is_valid(&text) {
                    let mut m = "invalid number: ".to_owned();
                    append_chars(&mut m, &text);
                    return Err(m);
                }
                tokens.push(Token::Number(text));
            }
            assert(toks_v(tokens@) =~= toks_v(before).push(tok_v(tokens@.last())));
            proof {
                lemma_prefixed_cons(toks_v(before), tok_v(tokens@.last()), tokenize_from(s@, j as int));
            }
            i = j;
        } else {
            let next_eq = i + 1 < s.len() && s[i + 1] == '=';
            let (tok, w): (Token, usize) = if c == '+' {
                (Token::Plus, 1)
            } else if c == '-' {
                (Token::Minus, 1)
            } else if c == '*' {
                (Token::Star, 1)
            } else if c == '/' {
                (Token::Slash, 1)
            } else if c == '(' {
                (Token::LParen, 1)
            } else if c == ')' {
                (Token::RParen, 1)
            } else if c == '=' && next_eq {
                (Token::Eq, 2)
            } else if c == '!' && next_eq {
                (Token::Ne, 2)
            } else if c == '>' && next_eq {
                (Token::Ge, 2)
            } else if c == '<' && next_eq {
                (Token::Le, 2)
            } else if c == '>' {
                (Token::Gt, 1)
            } else if c == '<' {
                (Token::Lt, 1)
            } else if c == '=' {
                return Err("expected '==' but found a single '='".to_owned());
            } else if c == '!' {
                return Err("expected '!=' but found a bare '!'".to_owned());
            } else {
                let mut m = "unexpected character: ".to_owned();
                crate::text::push_char(&mut m, c);
                return Err(m);
            };
            assert(symbol(s@, i as int) == Ok::<(Tok, int), Seq<char>>((tok_v(tok), w as int)));
            tokens.push(tok);
            assert(toks_v(tokens@) =~= toks_v(before).push(tok_v(tok)));
            proof {
                lemma_prefixed_cons(toks_v(before), tok_v(tok), tokenize_from(s@, i + w));
            }
            i = i + w;
        }
    }
    assert(toks_v(tokens@) + Seq::<Tok>::empty() =~= toks_v(tokens@));
    Ok(tokens)
}

/// Arithmetic operators of terms.
#[derive(Debug, Clone, Copy, PartialEq, Eq, Structural)]
pub enum ArithOp {
    Add,
    Sub,
    Mul,
    Div,
}

/// Comparison operators of constraints.
#[derive(Debug, Clone, Copy, PartialEq, Eq, Structural)]
pub enum CompareOp {
    Eq,
    Ne,
    Ge,
    Le,
    Gt,
    Lt,
}

/// A decimal literal: its sign and its digits (at least one digit, at most
/// one `.`), exactly as written. Its value is the `f64` the digits parse to,
/// negated when `negative`.
#[derive(Debug, Clone, PartialEq)]
pub struct Decimal {
    pub negative: bool,
    pub digits: String,
}

/// An arithmetic term.
#[derive(Debug, PartialEq)]
pub enum Term {
    Param(String),
    Literal(Decimal),
    BinaryOp { op: ArithOp, left: Box<Term>, right: Box<Term> },
}

/// A constraint: one comparison, or several that must all hold.
#[derive(Debug, PartialEq)]
pub enum ConstraintExpr {
    Comparison { left: Term, op: CompareOp, right: Term },
    All(Vec<ConstraintExpr>),
}

impl Clone for Term {
    fn clone(&self) -> (r: Self)
        ensures
            term_v(r) == term_v(*self),
        decreases self,
    {
        match self {
            Term::Param(n) => Term::Param(n.clone()),
            Term::Literal(d) => Term::Literal(Decimal { negative: d.negative, digits: d.digits.clone() }),
            Term::BinaryOp { op, left, right } => {
                let l = (**left).clone();
                let r = (**right).clone();
                Term::BinaryOp { op: *op, left: Box::new(l), right: Box::new(r) }
            },
        }
    }
}

impl Clone for ConstraintExpr {
    #[verifier::loop_isolation(false)]
    fn clone(&self) -> (r: Self)
        decreases self,
    {
        match self {
            ConstraintExpr::Comparison { left, op, right } => ConstraintExpr::Comparison {
                left: left.clone(),
                op: *op,
                right: right.clone(),
            },
            ConstraintExpr::All(parts) => {
                let mut v: Vec<ConstraintExpr> = Vec::new();
                let mut i: usize = 0;
                while i < parts.len()
                    invariant
                        i <= parts.len(),
                    decreases parts.len() - i,
                {
                    proof {
                        assert(decreases_to!(*self => *parts));
                        assert(decreases_to!(*parts => parts@));
                        assert(decreases_to!(parts@ => parts@[i as int]));
                    }
                    v.push(parts[i].clone());
                    i += 1;
                }
                ConstraintExpr::All(v)
            },
        }
    }
}

/// The mathematical shape of a `Term`.
pub enum TermV {
    Param(Seq<char>),
    Literal(bool, Seq<char>),
    Binary(ArithOp, Box<TermV>, Box<TermV>),
}

pub open spec fn term_v(t: Term) -> TermV
    decreases t,
{
    match t {
        Term::Param(n) => TermV::Param(n@),
        Term::Literal(d) => TermV::Literal(d.negative, d.digits@),
        Term::BinaryOp { op, left, right } => TermV::Binary(op, Box::new(term_v(*left)), Box::new(term_v(*right))),
    }
}

/// The depth of a term tree: 0 for a leaf.
pub open spec fn height(t: TermV) -> nat
    decreases t,
{
    match t {
        TermV::Binary(_, l, r) => {
            let a = height(*l);
            let b = height(*r);
            1 + if a >= b { a } else { b }
        },
        _ => 0,
    }
}

pub open spec fn nesting_message() -> Seq<char> {
    "constraint nesting exceeds maximum depth 64"@
}

pub open spec fn tree_message() -> Seq<char> {
    "constraint tree exceeds maximum depth 64"@
}

/// The characters of a number other than its dot.
pub open spec fn number_digits(t: Seq<char>) -> Seq<char>
    decreases t.len(),
{
    if t.len() == 0 {
        Seq::empty()
    } else if t.last() == '.' {
        number_digits(t.drop_last())
    } else {
        number_digits(t.drop_last()).push(t.last())
    }
}

pub open spec fn is_dot_in(t: Seq<char>) -> spec_fn(int) -> bool {
    |i: int| t[i] == '.'
}

pub open spec fn nonzero_in(d: Seq<char>) -> spec_fn(int) -> bool {
    |i: int| d[i] != '0'
}

/// How many digits stand before the dot.
pub open spec fn integer_digits(t: Seq<char>) -> int {
    match first_where(t.len() as int, is_dot_in(t)) {
        Some(k) => k,
        None => t.len() as int,
    }
}

pub open spec fn zeros(n: int) -> Seq<char> {
    Seq::new(n as nat, |i: int| '0')
}

/// Significant digits `s` with decimal exponent `e` (the value is
/// `s[0].s[1..] * 10^e`) as `{:?}` writes an `f64`: scientific notation when
/// `e >= 16` or `e < -4`, otherwise plain decimal with at least one
/// fractional digit.
#[verifier::opaque]
pub open spec fn significant_debug(s: Seq<char>, e: int) -> Seq<char> {
    let k = s.len() as int;
    if e >= 16 || e < -4 {
        seq![s[0]] + (if k > 1 { seq!['.'] + s.skip(1) } else { Seq::empty() }) + seq!['e'] + (if e < 0 {
            seq!['-']
        } else {
            Seq::empty()
        }) + decimal((if e < 0 { -e } else { e }) as nat)
    } else if e >= 0 {
        if k > e + 1 {
            s.take(e + 1) + seq!['.'] + s.skip(e + 1)
        } else {
            s + zeros(e + 1 - k) + seq!['.', '0']
        }
    } else {
        seq!['0', '.'] + zeros(-e - 1) + s
    }
}

/// A number as `{:?}` writes the `f64` it denotes, worked out on its digits:
/// zero is `0.0`; otherwise its significant digits (from the first nonzero
/// digit to the last) with their decimal exponent. For a number of at most
/// 15 significant digits in the normal range of `f64` this is exactly what
/// the `f64` prints, since such a number is the shortest decimal that reads
/// back as the same `f64`.
#[verifier::opaque]
pub open spec fn number_debug(t: Seq<char>) -> Seq<char> {
    let d = number_digits(t);
    match first_where(d.len() as int, nonzero_in(d)) {
        None => seq!['0', '.', '0'],
        Some(lz) => significant_debug(
            d.subrange(lz, last_where(d.len() as int, nonzero_in(d))->0 + 1),
            integer_digits(t) - lz - 1,
        ),
    }
}

fn push_zeros(out: &mut String, n: usize)
    ensures
        final(out)@ == old(out)@ + zeros(n as int),
{
    let ghost start = out@;
    let mut i: usize = 0;
    while i < n
        invariant
            i <= n,
            out@ == start + zeros(i as int),
        decreases n - i,
    {
        push_char(out, '0');
        assert(zeros(i + 1) =~= zeros(i as int).push('0'));
        i += 1;
    }
}

fn number_digits_of(t: &Vec<char>) -> (d: Vec<char>)
    ensures
        d@ == number_digits(t@),
        d.len() <= t.len(),
{
    let mut d: Vec<char> = Vec::new();
    let mut i: usize = 0;
    while i < t.len()
        invariant
            i <= t.len(),
            d@ == number_digits(t@.take(i as int)),
            d.len() <= i,
        decreases t.len() - i,
    {
        assert(t@.take(i + 1).drop_last() =~= t@.take(i as int));
        if t[i] != '.' {
            d.push(t[i]);
        }
        i += 1;
    }
    assert(t@.take(t.len() as int) =~= t@);
    d
}

fn integer_digits_of(t: &Vec<char>) -> (r: usize)
    ensures
        r == integer_digits(t@),
        r <= t.len(),
{
    let mut int_len: usize = 0;
    while int_len < t.len() && t[int_len] != '.'
        invariant
            int_len <= t.len(),
            forall|j: int| 0 <= j < int_len ==> !#[trigger] is_dot_in(t@)(j),
        decreases t.len() - int_len,
    {
        int_len += 1;
    }
    proof {
        if int_len < t.len() {
            lemma_first_where(t.len() as int, is_dot_in(t@), int_len as int);
        } else {
            lemma_first_where_none(t.len() as int, is_dot_in(t@));
        }
    }
    int_len
}

/// `number_debug` of a number's characters.
#[verifier::rlimit(60)]
fn number_text(t: &Vec<char>) -> (r: String)
    ensures
        r@ == number_debug(t@),
{
    let d = number_digits_of(t);
    let int_len = integer_digits_of(t);
    let mut lz: usize = 0;
    while lz < d.len() && d[lz] == '0'
        invariant
            lz <= d.len(),
            d.len() <= t.len(),
            forall|j: int| 0 <= j < lz ==> !#[trigger] nonzero_in(d@)(j),
        decreases d.len() - lz,
    {
        lz += 1;
    }
    let mut out = String::new();
    if lz == d.len() {
        proof {
            lemma_first_where_none(d.len() as int, nonzero_in(d@));
        }
        push_char(&mut out, '0');
        push_char(&mut out, '.');
        push_char(&mut out, '0');
        assert(number_debug(t@) == seq!['0', '.', '0']) by {
            reveal(number_debug);
        }
        assert(out@ =~= seq!['0', '.', '0']);
        return out;
    }
    proof {
        lemma_first_where(d.len() as int, nonzero_in(d@), lz as int);
    }
    let mut last: usize = d.len() - 1;
    while d[last] == '0'
        invariant
            lz <= last < d.len(),
            d@[lz as int] != '0',
            forall|j: int| last < j < d.len() ==> !#[trigger] nonzero_in(d@)(j),
        decreases last,
    {
        last -= 1;
    }
    proof {
        lemma_last_where(d.len() as int, nonzero_in(d@), last as int);
    }
    let s = slice_of(&d, lz, last + 1);
    let out = significant_text(&s, int_len, lz);
    assert(number_debug(t@) == significant_debug(d@.subrange(lz as int, last + 1), int_len - lz - 1)) by {
        reveal(number_debug);
    }
    out
}

/// `significant_debug` of `s` with exponent `int_len - lz - 1`.
fn significant_text(s: &Vec<char>, int_len: usize, lz: usize) -> (r: String)
    requires
        s.len() > 0,
        lz < usize::MAX,
    ensures
        r@ == significant_debug(s@, int_len - lz - 1),
{
    reveal(significant_debug);
    let k = s.len();
    let ghost sv = s@;
    let mut out = String::new();
    if (int_len >= lz && int_len - lz >= 17) || (lz >= int_len && lz - int_len > 3) {
        push_char(&mut out, s[0]);
        if k > 1 {
            push_char(&mut out, '.');
            let rest = slice_of(s, 1, k);
            append_chars(&mut out, &rest);
            assert(sv.skip(1) =~= sv.subrange(1, k as int));
        }
        push_char(&mut out, 'e');
        if int_len > lz {
            let x = decimal_string((int_len - lz - 1) as u64);
            append_str(&mut out, x.as_str());
        } else {
            push_char(&mut out, '-');
            let x = decimal_string((lz - int_len) as u64 + 1);
            append_str(&mut out, x.as_str());
        }
    } else if int_len > lz {
        let e1 = int_len - lz;
        if k > e1 {
            let head = slice_of(s, 0, e1);
            append_chars(&mut out, &head);
            push_char(&mut out, '.');
            let tail = slice_of(s, e1, k);
            append_chars(&mut out, &tail);
            assert(sv.take(e1 as int) =~= sv.subrange(0, e1 as int));
            assert(sv.skip(e1 as int) =~= sv.subrange(e1 as int, k as int));
        } else {
            append_chars(&mut out, s);
            push_zeros(&mut out, e1 - k);
            push_char(&mut out, '.');
            push_char(&mut out, '0');
        }
    } else {
        push_char(&mut out, '0');
        push_char(&mut out, '.');
        push_zeros(&mut out, lz - int_len);
        append_chars(&mut out, s);
    }
    out
}

pub open spec fn tok_debug(t: Tok) -> Seq<char> {
    match t {
        Tok::Ident(n) => "Ident(\""@ + n + "\")"@,
        Tok::Number(d) => "Number("@ + number_debug(d) + ")"@,
        Tok::Plus => "Plus"@,
        Tok::Minus => "Minus"@,
        Tok::Star => "Star"@,
        Tok::Slash => "Slash"@,
        Tok::Eq => "Eq"@,
        Tok::Ne => "Ne"@,
        Tok::Ge => "Ge"@,
        Tok::Le => "Le"@,
        Tok::Gt => "Gt"@,
        Tok::Lt => "Lt"@,
        Tok::LParen => "LParen"@,
        Tok::RParen => "RParen"@,
        Tok::And => "And"@,
    }
}

/// How an error message shows the token found, or its absence.
pub open spec fn found_debug(t: Option<Tok>) -> Seq<char> {
    match t {
        Some(x) => "Some("@ + tok_debug(x) + ")"@,
        None => "None"@,
    }
}

pub open spec fn tok_at(toks: Seq<Tok>, pos: int) -> Option<Tok> {
    if 0 <= pos < toks.len() {
        Some(toks[pos])
    } else {
        None
    }
}

/// A binary node, unless it would be deeper than the limit.
pub open spec fn binary_spec(op: ArithOp, l: TermV, r: TermV) -> Result<TermV, Seq<char>> {
    let a = height(l);
    let b = height(r);
    if 1 + (if a >= b { a } else { b }) > MAX_NESTING_DEPTH {
        Err(tree_message())
    } else {
        Ok(TermV::Binary(op, Box::new(l), Box::new(r)))
    }
}

/// The term parsed at `pos`, with the position after it.
pub type Parsed = Result<(TermV, int), Seq<char>>;

/// `atom := number | identifier | '-' atom | '(' term ')'`, at nesting `depth`.
/// A minus in front of a literal flips its sign; in front of anything else it
/// is `0 - atom`.
pub open spec fn atom_spec(toks: Seq<Tok>, pos: int, depth: int) -> Parsed
    decreases toks.len() - pos, 0int,
{
    if depth > MAX_NESTING_DEPTH {
        Err(nesting_message())
    } else {
        match tok_at(toks, pos) {
            Some(Tok::Number(d)) => Ok((TermV::Literal(false, d), pos + 1)),
            Some(Tok::Ident(n)) => Ok((TermV::Param(n), pos + 1)),
            Some(Tok::Minus) => match atom_spec(toks, pos + 1, depth + 1) {
                Err(e) => Err(e),
                Ok((a, p)) => match a {
                    TermV::Literal(neg, d) => Ok((TermV::Literal(!neg, d), p)),
                    _ => match binary_spec(ArithOp::Sub, TermV::Literal(false, "0"@), a) {
                        Ok(b) => Ok((b, p)),
                        Err(e) => Err(e),
                    },
                },
            },
            Some(Tok::LParen) => match term_spec(toks, pos + 1, depth + 1) {
                Err(e) => Err(e),
                Ok((t, p)) => if tok_at(toks, p) == Some(Tok::RParen) {
                    Ok((t, p + 1))
                } else {
                    Err("expected ')', found "@ + found_debug(tok_at(toks, p)))
                },
            },
            other => Err("expected a number, identifier, '-', or '(', found "@ + found_debug(other)),
        }
    }
}

/// `factor := atom (('*' | '/') atom)*`, left associative.
pub open spec fn factor_spec(toks: Seq<Tok>, pos: int, depth: int) -> Parsed
    decreases toks.len() - pos, 2int,
{
    match atom_spec(toks, pos, depth) {
        Err(e) => Err(e),
        Ok((a, p)) => if pos < p <= toks.len() {
            factor_tail(toks, p, depth, a)
        } else {
            Err(Seq::empty())
        },
    }
}

pub open spec fn factor_tail(toks: Seq<Tok>, pos: int, depth: int, left: TermV) -> Parsed
    decreases toks.len() - pos, 1int,
{
    let op = match tok_at(toks, pos) {
        Some(Tok::Star) => Some(ArithOp::Mul),
        Some(Tok::Slash) => Some(ArithOp::Div),
        _ => None,
    };
    match op {
        None => Ok((left, pos)),
        Some(op) => match atom_spec(toks, pos + 1, depth) {
            Err(e) => Err(e),
            Ok((a, p)) => match binary_spec(op, left, a) {
                Err(e) => Err(e),
                Ok(b) => if pos < p <= toks.len() {
                    factor_tail(toks, p, depth, b)
                } else {
                    Err(Seq::empty())
                },
            },
        },
    }
}

/// `term := factor (('+' | '-') factor)*`, left associative.
pub open spec fn term_spec(toks: Seq<Tok>, pos: int, depth: int) -> Parsed
    decreases toks.len() - pos, 4int,
{
    match factor_spec(toks, pos, depth) {
        Err(e) => Err(e),
        Ok((f, p)) => if pos < p <= toks.len() {
            term_tail(toks, p, depth, f)
        } else {
            Err(Seq::empty())
        },
    }
}

pub open spec fn term_tail(toks: Seq<Tok>, pos: int, depth: int, left: TermV) -> Parsed
    decreases toks.len() - pos, 3int,
{
    let op = match tok_at(toks, pos) {
        Some(Tok::Plus) => Some(ArithOp::Add),
        Some(Tok::Minus) => Some(ArithOp::Sub),
        _ => None,
    };
    match op {
        None => Ok((left, pos)),
        Some(op) => match factor_spec(toks, pos + 1, depth) {
            Err(e) => Err(e),
            Ok((f, p)) => match binary_spec(op, left, f) {
                Err(e) => Err(e),
                Ok(b) => if pos < p <= toks.len() {
                    term_tail(toks, p, depth, b)
                } else {
                    Err(Seq::empty())
                },
            },
        },
    }
}

/// A comparison as the specification sees it.
pub type ComparisonV = (TermV, CompareOp, TermV);

/// `comparison := term op term`.
pub open spec fn comparison_spec(toks: Seq<Tok>, pos: int) -> Result<(ComparisonV, int), Seq<char>> {
    match term_spec(toks, pos, 0) {
        Err(e) => Err(e),
        Ok((l, p)) => {
            let op = match tok_at(toks, p) {
                Some(Tok::Eq) => Some(CompareOp::Eq),
                Some(Tok::Ne) => Some(CompareOp::Ne),
                Some(Tok::Ge) => Some(CompareOp::Ge),
                Some(Tok::Le) => Some(CompareOp::Le),
                Some(Tok::Gt) => Some(CompareOp::Gt),
                Some(Tok::Lt) => Some(CompareOp::Lt),
                _ => None,
            };
            match op {
                None => Err("expected a comparison operator, found "@ + found_debug(tok_at(toks, p))),
                Some(op) => match term_spec(toks, p + 1, 0) {
                    Err(e) => Err(e),
                    Ok((r, q)) => Ok(((l, op, r), q)),
                },
            }
        },
    }
}

/// `conjunction := comparison ('and' comparison)*`; `acc` holds the
/// comparisons read so far.
pub open spec fn conjunction_tail(toks: Seq<Tok>, pos: int, acc: Seq<ComparisonV>) -> Result<
    (Seq<ComparisonV>, int),
    Seq<char>,
>
    decreases toks.len() - pos,
{
    if tok_at(toks, pos) == Some(Tok::And) {
        match comparison_spec(toks, pos + 1) {
            Err(e) => Err(e),
            Ok((c, p)) => if pos < p <= toks.len() {
                conjunction_tail(toks, p, acc.push(c))
            } else {
                Err(Seq::empty())
            },
        }
    } else {
        Ok((acc, pos))
    }
}

pub open spec fn conjunction_spec(toks: Seq<Tok>) -> Result<(Seq<ComparisonV>, int), Seq<char>> {
    match comparison_spec(toks, 0) {
        Err(e) => Err(e),
        Ok((c, p)) => conjunction_tail(toks, p, seq![c]),
    }
}

/// The comparisons of a constraint, or the message that rejects it.
pub open spec fn constraint_spec(input: Seq<char>) -> Result<Seq<ComparisonV>, Seq<char>> {
    match tokenize_spec(input) {
        Err(m) => Err(m),
        Ok(toks) => match conjunction_spec(toks) {
            Err(m) => Err(m),
            Ok((cs, p)) => if p != toks.len() {
                Err("unexpected trailing input in constraint: "@ + input)
            } else {
                Ok(cs)
            },
        },
    }
}

/// `e` is the constraint made of comparisons `cs`: the comparison itself when
/// there is one, `All` of them otherwise.
pub open spec fn expr_is(e: ConstraintExpr, cs: Seq<ComparisonV>) -> bool {
    if cs.len() == 1 {
        e matches ConstraintExpr::Comparison { left, op, right } && (term_v(left), op, term_v(right)) == cs[0]
    } else {
        e matches ConstraintExpr::All(v) && v.len() == cs.len() && forall|i: int|
            0 <= i < v.len() ==> comparison_is(#[trigger] v[i], cs[i])
    }
}

/// Both sides of `c` are within the depth limit.
pub open spec fn within_depth(c: ComparisonV) -> bool {
    height(c.0) <= MAX_NESTING_DEPTH && height(c.2) <= MAX_NESTING_DEPTH
}

pub open spec fn comparison_is(e: ConstraintExpr, c: ComparisonV) -> bool {
    e matches ConstraintExpr::Comparison { left, op, right } && (term_v(left), op, term_v(right)) == c
}

/// A term with its depth.
struct ParsedTerm {
    term: Term,
    depth: usize,
}

spec fn parsed_wf(p: ParsedTerm) -> bool {
    p.depth == height(term_v(p.term)) && p.depth <= MAX_NESTING_DEPTH
}

spec fn parsed_agrees(r: Result<(ParsedTerm, usize), String>, e: Parsed) -> bool {
    match (r, e) {
        (Ok((p, q)), Ok((t, eq))) => term_v(p.term) == t && q == eq && parsed_wf(p),
        (Err(m), Err(em)) => m@ == em,
        _ => false,
    }
}

spec fn progress(r: Result<(ParsedTerm, usize), String>, pos: usize, len: usize) -> bool {
    r matches Ok((_, q)) ==> pos < q <= len
}

fn leaf(term: Term) -> (r: ParsedTerm)
    requires
        !(term_v(term) is Binary),
    ensures
        r.term == term,
        parsed_wf(r),
{
    ParsedTerm { term, depth: 0 }
}

fn binary(op: ArithOp, left: ParsedTerm, right: ParsedTerm) -> (r: Result<ParsedTerm, String>)
    requires
        parsed_wf(left),
        parsed_wf(right),
    ensures
        match (r, binary_spec(op, term_v(left.term), term_v(right.term))) {
            (Ok(p), Ok(t)) => term_v(p.term) == t && parsed_wf(p),
            (Err(m), Err(em)) => m@ == em,
            _ => false,
        },
{
    let depth = 1 + if left.depth >= right.depth { left.depth } else { right.depth };
    if depth > MAX_NESTING_DEPTH {
        return Err("constraint tree exceeds maximum depth 64".to_owned());
    }
    let term = Term::BinaryOp { op, left: Box::new(left.term), right: Box::new(right.term) };
    Ok(ParsedTerm { term, depth })
}

fn push_literal(m: &mut String, t: &str)
    ensures
        final(m)@ == old(m)@ + t@,
{
    append_str(m, t);
}

/// `tok_debug` of a token.
fn token_debug(t: &Token) -> (r: String)
    ensures
        r@ == tok_debug(tok_v(*t)),
{
    match t {
        Token::Ident(n) => {
            let mut m = "Ident(\"".to_owned();
            append_chars(&mut m, n);
            push_literal(&mut m, "\")");
            m
        },
        Token::Number(d) => {
            let mut m = "Number(".to_owned();
            let n = number_text(d);
            append_str(&mut m, n.as_str());
            push_literal(&mut m, ")");
            m
        },
        Token::Plus => "Plus".to_owned(),
        Token::Minus => "Minus".to_owned(),
        Token::Star => "Star".to_owned(),
        Token::Slash => "Slash".to_owned(),
        Token::Eq => "Eq".to_owned(),
        Token::Ne => "Ne".to_owned(),
        Token::Ge => "Ge".to_owned(),
        Token::Le => "Le".to_owned(),
        Token::Gt => "Gt".to_owned(),
        Token::Lt => "Lt".to_owned(),
        Token::LParen => "LParen".to_owned(),
        Token::RParen => "RParen".to_owned(),
        Token::And => "And".to_owned(),
    }
}

/// `prefix` followed by how an error shows the token at `pos`.
fn found_message(prefix: &str, toks: &Vec<Token>, pos: usize) -> (r: String)
    ensures
        r@ == prefix@ + found_debug(tok_at(toks_v(toks@), pos as int)),
{
    let mut m = prefix.to_owned();
    if pos < toks.len() {
        push_literal(&mut m, "Some(");
        let d = token_debug(&toks[pos]);
        let dv = chars_of(d.as_str());
        append_chars(&mut m, &dv);
        push_literal(&mut m, ")");
        assert(m@ == prefix@ + ("Some("@ + tok_debug(tok_v(toks@[pos as int])) + ")"@));
    } else {
        push_literal(&mut m, "None");
    }
    m
}

fn parse_atom(toks: &Vec<Token>, pos: usize, depth: usize) -> (r: Result<(ParsedTerm, usize), String>)
    requires
        pos <= toks.len(),
        depth <= MAX_NESTING_DEPTH + 1,
    ensures
        parsed_agrees(r, atom_spec(toks_v(toks@), pos as int, depth as int)),
        progress(r, pos, toks.len()),
    decreases toks.len() - pos, 0int,
{
    let ghost tv = toks_v(toks@);
    if depth > MAX_NESTING_DEPTH {
        return Err("constraint nesting exceeds maximum depth 64".to_owned());
    }
    if pos >= toks.len() {
        return Err(found_message("expected a number, identifier, '-', or '(', found ", toks, pos));
    }
    assert(tok_at(tv, pos as int) == Some(tok_v(toks@[pos as int])));
    match &toks[pos] {
        Token::Number(d) => {
            let t = Term::Literal(Decimal { negative: false, digits: string_of_all(d) });
            Ok((leaf(t), pos + 1))
        },
        Token::Ident(n) => Ok((leaf(Term::Param(string_of_all(n))), pos + 1)),
        Token::Minus => {
            let (a, p) = parse_atom(toks, pos + 1, depth + 1)?;
            match a.term {
                Term::Literal(d) => {
                    let t = Term::Literal(Decimal { negative: !d.negative, digits: d.digits });
                    Ok((leaf(t), p))
                },
                other => {
                    let zero = Term::Literal(Decimal { negative: false, digits: "0".to_owned() });
                    let right = ParsedTerm { term: other, depth: a.depth };
                    let b = binary(ArithOp::Sub, leaf(zero), right)?;
                    Ok((b, p))
                },
            }
        },
        Token::LParen => {
            let (t, p) = parse_term(toks, pos + 1, depth + 1)?;
            if p < toks.len() && matches!(toks[p], Token::RParen) {
                assert(tok_at(tv, p as int) == Some(Tok::RParen));
                Ok((t, p + 1))
            } else {
                assert(p < toks.len() ==> tok_at(tv, p as int) == Some(tok_v(toks@[p as int])));
                Err(found_message("expected ')', found ", toks, p))
            }
        },
        _ => Err(found_message("expected a number, identifier, '-', or '(', found ", toks, pos)),
    }
}

fn parse_factor(toks: &Vec<Token>, pos: usize, depth: usize) -> (r: Result<(ParsedTerm, usize), String>)
    requires
        pos <= toks.len(),
        depth <= MAX_NESTING_DEPTH + 1,
    ensures
        parsed_agrees(r, factor_spec(toks_v(toks@), pos as int, depth as int)),
        progress(r, pos, toks.len()),
    decreases toks.len() - pos, 2int,
{
    let (a, p) = parse_atom(toks, pos, depth)?;
    parse_factor_tail(toks, p, depth, a)
}

fn parse_factor_tail(toks: &Vec<Token>, pos: usize, depth: usize, left: ParsedTerm) -> (r: Result<(ParsedTerm, usize), String>)
    requires
        pos <= toks.len(),
        depth <= MAX_NESTING_DEPTH + 1,
        parsed_wf(left),
    ensures
        parsed_agrees(r, factor_tail(toks_v(toks@), pos as int, depth as int, term_v(left.term))),
        r matches Ok((_, q)) ==> pos <= q <= toks.len(),
    decreases toks.len() - pos, 1int,
{
    let ghost tv = toks_v(toks@);
    if pos >= toks.len() {
        return Ok((left, pos));
    }
    assert(tok_at(tv, pos as int) == Some(tok_v(toks@[pos as int])));
    let op = match &toks[pos] {
        Token::Star => ArithOp::Mul,
        Token::Slash => ArithOp::Div,
        _ => {
            return Ok((left, pos));
        },
    };
    let (a, p) = parse_atom(toks, pos + 1, depth)?;
    let b = binary(op, left, a)?;
    parse_factor_tail(toks, p, depth, b)
}

fn parse_term(toks: &Vec<Token>, pos: usize, depth: usize) -> (r: Result<(ParsedTerm, usize), String>)
    requires
        pos <= toks.len(),
        depth <= MAX_NESTING_DEPTH + 1,
    ensures
        parsed_agrees(r, term_spec(toks_v(toks@), pos as int, depth as int)),
        progress(r, pos, toks.len()),
    decreases toks.len() - pos, 4int,
{
    let (f, p) = parse_factor(toks, pos, depth)?;
    parse_term_tail(toks, p, depth, f)
}

fn parse_term_tail(toks: &Vec<Token>, pos: usize, depth: usize, left: ParsedTerm) -> (r: Result<(ParsedTerm, usize), String>)
    requires
        pos <= toks.len(),
        depth <= MAX_NESTING_DEPTH + 1,
        parsed_wf(left),
    ensures
        parsed_agrees(r, term_tail(toks_v(toks@), pos as int, depth as int, term_v(left.term))),
        r matches Ok((_, q)) ==> pos <= q <= toks.len(),
    decreases toks.len() - pos, 3int,
{
    let ghost tv = toks_v(toks@);
    if pos >= toks.len() {
        return Ok((left, pos));
    }
    assert(tok_at(tv, pos as int) == Some(tok_v(toks@[pos as int])));
    let op = match &toks[pos] {
        Token::Plus => ArithOp::Add,
        Token::Minus => ArithOp::Sub,
        _ => {
            return Ok((left, pos));
        },
    };
    let (f, p) = parse_factor(toks, pos + 1, depth)?;
    let b = binary(op, left, f)?;
    parse_term_tail(toks, p, depth, b)
}

fn parse_comparison(toks: &Vec<Token>, pos: usize) -> (r: Result<(ConstraintExpr, usize), String>)
    requires
        pos <= toks.len(),
    ensures
        match (r, comparison_spec(toks_v(toks@), pos as int)) {
            (Ok((e, q)), Ok((c, eq))) => comparison_is(e, c) && within_depth(c) && q == eq && pos < q <= toks.len(),
            (Err(m), Err(em)) => m@ == em,
            _ => false,
        },
{
    let ghost tv = toks_v(toks@);
    let (left, p) = parse_term(toks, pos, 0)?;
    if p < toks.len() {
        assert(tok_at(tv, p as int) == Some(tok_v(toks@[p as int])));
    }
    let op = if p >= toks.len() {
        return Err(found_message("expected a comparison operator, found ", toks, p));
    } else {
        match &toks[p] {
            Token::Eq => CompareOp::Eq,
            Token::Ne => CompareOp::Ne,
            Token::Ge => CompareOp::Ge,
            Token::Le => CompareOp::Le,
            Token::Gt => CompareOp::Gt,
            Token::Lt => CompareOp::Lt,
            _ => {
                return Err(found_message("expected a comparison operator, found ", toks, p));
            },
        }
    };
    let (right, q) = parse_term(toks, p + 1, 0)?;
    Ok((ConstraintExpr::Comparison { left: left.term, op, right: right.term }, q))
}

/// Parses a constraint. Tokens, grammar and messages are those of
/// `constraint_spec`.
fn parse_expression(input: &str) -> (r: Result<ConstraintExpr, String>)
    ensures
        match (r, constraint_spec(input@)) {
            (Ok(e), Ok(cs)) => expr_is(e, cs),
            (Err(m), Err(em)) => m@ == em,
            _ => false,
        },
        r is Ok ==> forall|i: int| 0 <= i < constraint_spec(input@)->Ok_0.len() ==> within_depth(
            #[trigger] constraint_spec(input@)->Ok_0[i],
        ),
{
    let chars = chars_of(input);
    let toks = tokenize(&chars)?;
    let ghost tv = toks_v(toks@);
    let (first, mut pos) = parse_comparison(&toks, 0)?;
    let mut comparisons: Vec<ConstraintExpr> = Vec::new();
    comparisons.push(first);
    let ghost mut acc: Seq<ComparisonV> = seq![(comparison_spec(tv, 0)->Ok_0).0];
    while pos < toks.len() && matches!(toks[pos], Token::And)
        invariant
            tv == toks_v(toks@),
            tokenize_spec(input@) == Ok::<Seq<Tok>, Seq<char>>(tv),
            pos <= toks.len(),
            conjunction_spec(tv) == conjunction_tail(tv, pos as int, acc),
            comparisons.len() == acc.len(),
            forall|i: int| 0 <= i < acc.len() ==> comparison_is(#[trigger] comparisons@[i], acc[i]),
            forall|i: int| 0 <= i < acc.len() ==> within_depth(#[trigger] acc[i]),
        decreases toks.len() - pos,
    {
        assert(tok_at(tv, pos as int) == Some(Tok::And));
        let (c, q) = parse_comparison(&toks, pos + 1)?;
        proof {
            acc = acc.push((comparison_spec(tv, pos + 1)->Ok_0).0);
        }
        comparisons.push(c);
        pos = q;
    }
    if pos < toks.len() {
        assert(tok_at(tv, pos as int) == Some(tok_v(toks@[pos as int])));
    }
    if pos != toks.len() {
        let mut m = "unexpected trailing input in constraint: ".to_owned();
        append_str(&mut m, input);
        return Err(m);
    }
    if comparisons.len() == 1 {
        let e = comparisons.pop().unwrap();
        Ok(e)
    } else {
        Ok(ConstraintExpr::All(comparisons))
    }
}

/// Parses constraint `input` of entity `entity_id`; a rejected constraint
/// carries both and the parser's message.
pub fn parse_constraint(entity_id: &str, input: &str) -> (r: Result<ConstraintExpr, KnowledgeError>)
    ensures
        match (r, constraint_spec(input@)) {
            (Ok(e), Ok(cs)) => expr_is(e, cs),
            (Err(KnowledgeError::ConstraintParseError { entity_id: x, constraint, message }), Err(m)) =>
                x@ == entity_id@ && constraint@ == input@ && message@ == m,
            _ => false,
        },
        r is Ok ==> forall|i: int| 0 <= i < constraint_spec(input@)->Ok_0.len() ==> within_depth(
            #[trigger] constraint_spec(input@)->Ok_0[i],
        ),
{
    match parse_expression(input) {
        Ok(e) => Ok(e),
        Err(message) => Err(
            KnowledgeError::ConstraintParseError {
                entity_id: entity_id.to_owned(),
                constraint: input.to_owned(),
                message,
            },
        ),
    }
}

/// Whether `name` reads, as a constraint, as exactly that one identifier.
pub fn is_parameter_name(name: &str) -> (r: bool)
    ensures
        r == (tokenize_spec(name@) matches Ok(ts) && ts.len() == 1 && ts[0] == Tok::Ident(name@)),
{
    let chars = chars_of(name);
    match tokenize(&chars) {
        Err(_) => false,
        Ok(ts) => {
            if ts.len() != 1 {
                return false;
            }
            assert(toks_v(ts@)[0] == tok_v(ts@[0]));
            match &ts[0] {
                Token::Ident(t) => crate::text::chars_eq(t, &chars),
                _ => false,
            }
        },
    }
}

/// Law: each operator character reads as its own token: `+ - * / ( )` one
/// character wide; `==`, `!=`, `>=`, `<=` two wide; `<` and `>` one wide
/// when no `=` follows.
pub proof fn lemma_operator_characters(s: Seq<char>, i: int)
    requires
        0 <= i < s.len(),
    ensures
        s[i] == '+' ==> symbol(s, i) == Ok::<(Tok, int), Seq<char>>((Tok::Plus, 1)),
        s[i] == '-' ==> symbol(s, i) == Ok::<(Tok, int), Seq<char>>((Tok::Minus, 1)),
        s[i] == '*' ==> symbol(s, i) == Ok::<(Tok, int), Seq<char>>((Tok::Star, 1)),
        s[i] == '/' ==> symbol(s, i) == Ok::<(Tok, int), Seq<char>>((Tok::Slash, 1)),
        s[i] == '(' ==> symbol(s, i) == Ok::<(Tok, int), Seq<char>>((Tok::LParen, 1)),
        s[i] == ')' ==> symbol(s, i) == Ok::<(Tok, int), Seq<char>>((Tok::RParen, 1)),
        i + 1 < s.len() && s[i + 1] == '=' ==> {
            &&& s[i] == '=' ==> symbol(s, i) == Ok::<(Tok, int), Seq<char>>((Tok::Eq, 2))
            &&& s[i] == '!' ==> symbol(s, i) == Ok::<(Tok, int), Seq<char>>((Tok::Ne, 2))
            &&& s[i] == '>' ==> symbol(s, i) == Ok::<(Tok, int), Seq<char>>((Tok::Ge, 2))
            &&& s[i] == '<' ==> symbol(s, i) == Ok::<(Tok, int), Seq<char>>((Tok::Le, 2))
        },
        !(i + 1 < s.len() && s[i + 1] == '=') ==> {
            &&& s[i] == '>' ==> symbol(s, i) == Ok::<(Tok, int), Seq<char>>((Tok::Gt, 1))
            &&& s[i] == '<' ==> symbol(s, i) == Ok::<(Tok, int), Seq<char>>((Tok::Lt, 1))
        },
{
}

/// Law: a name, `*` or `/`, and a number, followed by no further `*` or
/// `/`, form one factor: the product, or the quotient, of the parameter and
/// the literal.
pub proof fn lemma_two_atom_factor(toks: Seq<Tok>, pos: int, depth: int, x: Seq<char>, y: Seq<char>)
    requires
        0 <= pos,
        pos + 3 <= toks.len(),
        0 <= depth <= MAX_NESTING_DEPTH,
        toks[pos] == Tok::Ident(x),
        toks[pos + 1] is Star || toks[pos + 1] is Slash,
        toks[pos + 2] == Tok::Number(y),
        tok_at(toks, pos + 3) != Some(Tok::Star),
        tok_at(toks, pos + 3) != Some(Tok::Slash),
    ensures
        toks[pos + 1] is Slash ==> factor_spec(toks, pos, depth) == Ok::<(TermV, int), Seq<char>>(
            (TermV::Binary(ArithOp::Div, Box::new(TermV::Param(x)), Box::new(TermV::Literal(false, y))), pos + 3),
        ),
        toks[pos + 1] is Star ==> factor_spec(toks, pos, depth) == Ok::<(TermV, int), Seq<char>>(
            (TermV::Binary(ArithOp::Mul, Box::new(TermV::Param(x)), Box::new(TermV::Literal(false, y))), pos + 3),
        ),
{
    assert(atom_spec(toks, pos, depth) == Ok::<(TermV, int), Seq<char>>((TermV::Param(x), pos + 1)));
    assert(atom_spec(toks, pos + 2, depth) == Ok::<(TermV, int), Seq<char>>((TermV::Literal(false, y), pos + 3)));
    assert(height(TermV::Param(x)) == 0);
    assert(height(TermV::Literal(false, y)) == 0);
    let op = if toks[pos + 1] is Slash { ArithOp::Div } else { ArithOp::Mul };
    let b = TermV::Binary(op, Box::new(TermV::Param(x)), Box::new(TermV::Literal(false, y)));
    assert(binary_spec(op, TermV::Param(x), TermV::Literal(false, y)) == Ok::<TermV, Seq<char>>(b));
    assert(factor_tail(toks, pos + 3, depth, b) == Ok::<(TermV, int), Seq<char>>((b, pos + 3)));
    assert(factor_tail(toks, pos + 1, depth, TermV::Param(x)) == Ok::<(TermV, int), Seq<char>>((b, pos + 3)));
}

/// Law: two names joined by `+` or `-`, followed by no further operator,
/// form one term: the sum, or the difference, of the two parameters.
pub proof fn lemma_two_factor_term(toks: Seq<Tok>, pos: int, depth: int, x: Seq<char>, y: Seq<char>)
    requires
        0 <= pos,
        pos + 3 <= toks.len(),
        0 <= depth <= MAX_NESTING_DEPTH,
        toks[pos] == Tok::Ident(x),
        toks[pos + 1] is Plus || toks[pos + 1] is Minus,
        toks[pos + 2] == Tok::Ident(y),
        pos + 3 < toks.len() ==> !(toks[pos + 3] is Star || toks[pos + 3] is Slash || toks[pos + 3] is Plus
            || toks[pos + 3] is Minus),
    ensures
        toks[pos + 1] is Plus ==> term_spec(toks, pos, depth) == Ok::<(TermV, int), Seq<char>>(
            (TermV::Binary(ArithOp::Add, Box::new(TermV::Param(x)), Box::new(TermV::Param(y))), pos + 3),
        ),
        toks[pos + 1] is Minus ==> term_spec(toks, pos, depth) == Ok::<(TermV, int), Seq<char>>(
            (TermV::Binary(ArithOp::Sub, Box::new(TermV::Param(x)), Box::new(TermV::Param(y))), pos + 3),
        ),
{
    assert(atom_spec(toks, pos, depth) == Ok::<(TermV, int), Seq<char>>((TermV::Param(x), pos + 1)));
    assert(factor_tail(toks, pos + 1, depth, TermV::Param(x)) == Ok::<(TermV, int), Seq<char>>((TermV::Param(x), pos + 1)));
    assert(factor_spec(toks, pos, depth) == Ok::<(TermV, int), Seq<char>>((TermV::Param(x), pos + 1)));
    assert(atom_spec(toks, pos + 2, depth) == Ok::<(TermV, int), Seq<char>>((TermV::Param(y), pos + 3)));
    assert(factor_tail(toks, pos + 3, depth, TermV::Param(y)) == Ok::<(TermV, int), Seq<char>>((TermV::Param(y), pos + 3)));
    assert(factor_spec(toks, pos + 2, depth) == Ok::<(TermV, int), Seq<char>>((TermV::Param(y), pos + 3)));
    assert(height(TermV::Param(x)) == 0);
    assert(height(TermV::Param(y)) == 0);
    let op = if toks[pos + 1] is Plus { ArithOp::Add } else { ArithOp::Sub };
    let b = TermV::Binary(op, Box::new(TermV::Param(x)), Box::new(TermV::Param(y)));
    assert(binary_spec(op, TermV::Param(x), TermV::Param(y)) == Ok::<TermV, Seq<char>>(b));
    assert(term_tail(toks, pos + 3, depth, b) == Ok::<(TermV, int), Seq<char>>((b, pos + 3)));
    assert(term_tail(toks, pos + 1, depth, TermV::Param(x)) == Ok::<(TermV, int), Seq<char>>((b, pos + 3)));
}

/// Law: a name, a comparison operator and a name form the comparison of the
/// two parameters by that operator.
pub proof fn lemma_simple_comparison(x: Seq<char>, y: Seq<char>, t: Tok)
    requires
        t is Eq || t is Ne || t is Ge || t is Le || t is Gt || t is Lt,
    ensures
        ({
            let toks = seq![Tok::Ident(x), t, Tok::Ident(y)];
            let op = match t {
                Tok::Eq => CompareOp::Eq,
                Tok::Ne => CompareOp::Ne,
                Tok::Ge => CompareOp::Ge,
                Tok::Le => CompareOp::Le,
                Tok::Gt => CompareOp::Gt,
                _ => CompareOp::Lt,
            };
            comparison_spec(toks, 0) == Ok::<(ComparisonV, int), Seq<char>>(((TermV::Param(x), op, TermV::Param(y)), 3))
        }),
{
    let toks = seq![Tok::Ident(x), t, Tok::Ident(y)];
    assert(atom_spec(toks, 0, 0) == Ok::<(TermV, int), Seq<char>>((TermV::Param(x), 1)));
    assert(factor_tail(toks, 1, 0, TermV::Param(x)) == Ok::<(TermV, int), Seq<char>>((TermV::Param(x), 1)));
    assert(factor_spec(toks, 0, 0) == Ok::<(TermV, int), Seq<char>>((TermV::Param(x), 1)));
    assert(term_tail(toks, 1, 0, TermV::Param(x)) == Ok::<(TermV, int), Seq<char>>((TermV::Param(x), 1)));
    assert(term_spec(toks, 0, 0) == Ok::<(TermV, int), Seq<char>>((TermV::Param(x), 1)));
    assert(atom_spec(toks, 2, 0) == Ok::<(TermV, int), Seq<char>>((TermV::Param(y), 3)));
    assert(factor_tail(toks, 3, 0, TermV::Param(y)) == Ok::<(TermV, int), Seq<char>>((TermV::Param(y), 3)));
    assert(factor_spec(toks, 2, 0) == Ok::<(TermV, int), Seq<char>>((TermV::Param(y), 3)));
    assert(term_tail(toks, 3, 0, TermV::Param(y)) == Ok::<(TermV, int), Seq<char>>((TermV::Param(y), 3)));
    assert(term_spec(toks, 2, 0) == Ok::<(TermV, int), Seq<char>>((TermV::Param(y), 3)));
}

/// Law: `*` and `/` bind tighter than `+` and `-`: `x + y * z` (or with
/// `-`, `/`) is `x` plus (or minus) the product (or quotient) of `y` and `z`.
pub proof fn lemma_product_binds_tighter(x: Seq<char>, y: Seq<char>, z: Seq<char>, add: Tok, mul: Tok)
    requires
        add is Plus || add is Minus,
        mul is Star || mul is Slash,
    ensures
        ({
            let toks = seq![Tok::Ident(x), add, Tok::Ident(y), mul, Tok::Number(z)];
            let aop = if add is Plus { ArithOp::Add } else { ArithOp::Sub };
            let mop = if mul is Star { ArithOp::Mul } else { ArithOp::Div };
            term_spec(toks, 0, 0) == Ok::<(TermV, int), Seq<char>>((
                TermV::Binary(
                    aop,
                    Box::new(TermV::Param(x)),
                    Box::new(TermV::Binary(mop, Box::new(TermV::Param(y)), Box::new(TermV::Literal(false, z)))),
                ),
                5,
            ))
        }),
{
    let toks = seq![Tok::Ident(x), add, Tok::Ident(y), mul, Tok::Number(z)];
    assert(atom_spec(toks, 0, 0) == Ok::<(TermV, int), Seq<char>>((TermV::Param(x), 1)));
    assert(factor_tail(toks, 1, 0, TermV::Param(x)) == Ok::<(TermV, int), Seq<char>>((TermV::Param(x), 1)));
    assert(factor_spec(toks, 0, 0) == Ok::<(TermV, int), Seq<char>>((TermV::Param(x), 1)));
    lemma_two_atom_factor(toks, 2, 0, y, z);
    let mop = if mul is Star { ArithOp::Mul } else { ArithOp::Div };
    let p = TermV::Binary(mop, Box::new(TermV::Param(y)), Box::new(TermV::Literal(false, z)));
    assert(factor_spec(toks, 2, 0) == Ok::<(TermV, int), Seq<char>>((p, 5)));
    assert(height(TermV::Param(x)) == 0);
    assert(height(p) == 1) by {
        assert(height(TermV::Param(y)) == 0);
        assert(height(TermV::Literal(false, z)) == 0);
    }
    let aop = if add is Plus { ArithOp::Add } else { ArithOp::Sub };
    let b = TermV::Binary(aop, Box::new(TermV::Param(x)), Box::new(p));
    assert(binary_spec(aop, TermV::Param(x), p) == Ok::<TermV, Seq<char>>(b));
    assert(term_tail(toks, 5, 0, b) == Ok::<(TermV, int), Seq<char>>((b, 5)));
    assert(term_tail(toks, 1, 0, TermV::Param(x)) == Ok::<(TermV, int), Seq<char>>((b, 5)));
}

/// Law: `-` groups to the left: `x - y - z` is `(x - y) - z`.
pub proof fn lemma_difference_groups_left(x: Seq<char>, y: Seq<char>, z: Seq<char>)
    ensures
        ({
            let toks = seq![Tok::Ident(x), Tok::Minus, Tok::Ident(y), Tok::Minus, Tok::Ident(z)];
            term_spec(toks, 0, 0) == Ok::<(TermV, int), Seq<char>>((
                TermV::Binary(
                    ArithOp::Sub,
                    Box::new(TermV::Binary(ArithOp::Sub, Box::new(TermV::Param(x)), Box::new(TermV::Param(y)))),
                    Box::new(TermV::Param(z)),
                ),
                5,
            ))
        }),
{
    let toks = seq![Tok::Ident(x), Tok::Minus, Tok::Ident(y), Tok::Minus, Tok::Ident(z)];
    assert(atom_spec(toks, 0, 0) == Ok::<(TermV, int), Seq<char>>((TermV::Param(x), 1)));
    assert(factor_tail(toks, 1, 0, TermV::Param(x)) == Ok::<(TermV, int), Seq<char>>((TermV::Param(x), 1)));
    assert(factor_spec(toks, 0, 0) == Ok::<(TermV, int), Seq<char>>((TermV::Param(x), 1)));
    assert(atom_spec(toks, 2, 0) == Ok::<(TermV, int), Seq<char>>((TermV::Param(y), 3)));
    assert(factor_tail(toks, 3, 0, TermV::Param(y)) == Ok::<(TermV, int), Seq<char>>((TermV::Param(y), 3)));
    assert(factor_spec(toks, 2, 0) == Ok::<(TermV, int), Seq<char>>((TermV::Param(y), 3)));
    assert(atom_spec(toks, 4, 0) == Ok::<(TermV, int), Seq<char>>((TermV::Param(z), 5)));
    assert(factor_tail(toks, 5, 0, TermV::Param(z)) == Ok::<(TermV, int), Seq<char>>((TermV::Param(z), 5)));
    assert(factor_spec(toks, 4, 0) == Ok::<(TermV, int), Seq<char>>((TermV::Param(z), 5)));
    assert(height(TermV::Param(x)) == 0);
    assert(height(TermV::Param(y)) == 0);
    assert(height(TermV::Param(z)) == 0);
    let d = TermV::Binary(ArithOp::Sub, Box::new(TermV::Param(x)), Box::new(TermV::Param(y)));
    assert(binary_spec(ArithOp::Sub, TermV::Param(x), TermV::Param(y)) == Ok::<TermV, Seq<char>>(d));
    assert(height(d) == 1);
    let e = TermV::Binary(ArithOp::Sub, Box::new(d), Box::new(TermV::Param(z)));
    assert(binary_spec(ArithOp::Sub, d, TermV::Param(z)) == Ok::<TermV, Seq<char>>(e));
    assert(term_tail(toks, 5, 0, e) == Ok::<(TermV, int), Seq<char>>((e, 5)));
    assert(term_tail(toks, 3, 0, d) == Ok::<(TermV, int), Seq<char>>((e, 5)));
    assert(term_tail(toks, 1, 0, TermV::Param(x)) == Ok::<(TermV, int), Seq<char>>((e, 5)));
}

} // verus!
