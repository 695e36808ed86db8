//! The source language: tokens, the syntax tree, and the parser.
//!
//! The grammar: a program is a list of statements; a statement is
//! `let x [= e]`, `x = e`, `x += e`, `while e { ... }` or `if e { ... }`;
//! expressions are byte constants, character constants, identifiers,
//! parenthesized expressions and the left-associative binary operators,
//! with `>` binding loosest and `+`/`-` sharing the next tier.

use vstd::prelude::*;
use vstd::string::StringSliceAdditionalSpecFns;
use crate::cells::{byte_add, byte_sub};

verus! {

/// What the parser was looking for when it failed.
#[derive(Clone, Copy, PartialEq, Eq, Structural, Debug)]
pub enum Expected {
    /// A statement keyword or an identifier.
    Stmt,
    /// A constant, identifier or parenthesized expression.
    Term,
    /// `=` or `+=` after an identifier.
    AssignOp,
    /// `{` opening a block.
    OpenBrace,
    /// `}` closing a block.
    CloseBrace,
    /// `)` closing a parenthesized expression.
    CloseParen,
    /// The closing quote of a character constant.
    CloseQuote,
    /// A byte the tokenizer recognizes.
    Token,
}

/// Why compilation failed.
#[derive(PartialEq, Debug)]
pub enum Error {
    /// The input does not conform to the grammar; the byte position and
    /// what was expected there.
    Parse { pos: usize, expected: Expected },
    /// A numeric constant beyond 255.
    NumberTooLarge { pos: usize },
    /// An identifier that no enclosing scope binds.
    UnknownVariable { name: Vec<u8> },
    /// The allocator ran out of addressable cells: a machine limit.
    TooManyCells,
    /// An invariant the lowering maintains was found broken: a compiler
    /// bug, never caused by the source program.
    Internal,
}

/// The errors the parser itself can produce.
pub open spec fn parse_error(e: Error) -> bool {
    ||| e is Parse
    ||| e is NumberTooLarge
}

/// Whether a byte is whitespace: space, tab, line feed, carriage return.
pub open spec fn is_blank(b: u8) -> bool {
    b == 32 || b == 9 || b == 10 || b == 13
}

/// Whether the input holds nothing but whitespace.
pub open spec fn all_blank(bytes: Seq<u8>) -> bool {
    forall|i: int| 0 <= i < bytes.len() ==> is_blank(bytes[i])
}

/// An identifier of the source language.
#[derive(Debug)]
pub struct Ident {
    name: Vec<u8>,
}

impl View for Ident {
    type V = Seq<u8>;

    closed spec fn view(&self) -> Seq<u8> {
        self.name@
    }
}

/// Copies a byte vector.
pub fn clone_bytes(v: &Vec<u8>) -> (r: Vec<u8>)
    ensures
        r@ == v@,
{
    let mut r: Vec<u8> = Vec::new();
    let mut i: usize = 0;
    while i < v.len()
        invariant
            i <= v@.len(),
            r@ == v@.subrange(0, i as int),
        decreases v@.len() - i,
    {
        r.push(v[i]);
        proof {
            assert(r@ =~= v@.subrange(0, i + 1));
        }
        i = i + 1;
    }
    proof {
        assert(r@ =~= v@);
    }
    r
}

/// Compares two byte strings.
pub fn bytes_eq(a: &Vec<u8>, b: &[u8]) -> (r: bool)
    ensures
        r <==> a@ == b@,
{
    if a.len() != b.len() {
        proof {
            assert(a@ != b@);
        }
        return false;
    }
    let n = a.len();
    let mut i: usize = 0;
    while i < n
        invariant
            n == a@.len() == b@.len(),
            i <= n,
            forall|j: int| 0 <= j < i ==> a@[j] == b@[j],
        decreases n - i,
    {
        if a[i] != b[i] {
            proof {
                assert(a@ != b@);
            }
            return false;
        }
        i = i + 1;
    }
    proof {
        assert(a@ =~= b@);
    }
    true
}

impl Ident {
    /// Wraps the bytes of an identifier.
    pub fn new(name: Vec<u8>) -> (r: Ident)
        ensures
            r@ == name@,
    {
        Ident { name }
    }

    /// The identifier's bytes.
    pub fn as_bytes(&self) -> (r: &Vec<u8>)
        ensures
            r@ == self@,
    {
        &self.name
    }

    /// An owned duplicate of this identifier.
    pub fn duplicate(&self) -> (r: Ident)
        ensures
            r@ == self@,
    {
        Ident { name: clone_bytes(&self.name) }
    }

    /// Whether two identifiers spell the same name.
    pub fn same_name(&self, other: &Ident) -> (r: bool)
        ensures
            r <==> self@ == other@,
    {
        bytes_eq(&self.name, other.name.as_slice())
    }
}

/// An expression of the source language.
#[derive(Debug)]
pub enum Expr {
    /// A byte constant (numeric or character).
    Const(u8),
    /// A variable reference.
    Var(Ident),
    /// Wrapping addition.
    Add(Box<Expr>, Box<Expr>),
    /// Wrapping subtraction.
    Sub(Box<Expr>, Box<Expr>),
    /// Strict greater-than, yielding 1 or 0.
    Gt(Box<Expr>, Box<Expr>),
}

/// The compile-time value of an expression built from constants alone.
pub open spec fn const_value_spec(e: Expr) -> Option<u8>
    decreases e,
{
    match e {
        Expr::Const(n) => Some(n),
        Expr::Var(_) => None,
        Expr::Add(a, b) => match (const_value_spec(*a), const_value_spec(*b)) {
            (Some(x), Some(y)) => Some(byte_add(x, y)),
            _ => None,
        },
        Expr::Sub(a, b) => match (const_value_spec(*a), const_value_spec(*b)) {
            (Some(x), Some(y)) => Some(byte_sub(x, y)),
            _ => None,
        },
        Expr::Gt(a, b) => match (const_value_spec(*a), const_value_spec(*b)) {
            (Some(x), Some(y)) => Some(
                if x > y {
                    1u8
                } else {
                    0u8
                },
            ),
            _ => None,
        },
    }
}

impl Expr {
    /// Folds an all-constant expression to its value, with wrap-around
    /// arithmetic; `None` as soon as a variable occurs.
    pub fn const_value(&self) -> (r: Option<u8>)
        ensures
            r == const_value_spec(*self),
        decreases *self,
    {
        match self {
            Expr::Const(n) => Some(*n),
            Expr::Var(_) => None,
            Expr::Add(a, b) => match (a.const_value(), b.const_value()) {
                (Some(x), Some(y)) => Some(x.wrapping_add(y)),
                _ => None,
            },
            Expr::Sub(a, b) => match (a.const_value(), b.const_value()) {
                (Some(x), Some(y)) => Some(x.wrapping_sub(y)),
                _ => None,
            },
            Expr::Gt(a, b) => match (a.const_value(), b.const_value()) {
                (Some(x), Some(y)) => Some(
                    if x > y {
                        1
                    } else {
                        0
                    },
                ),
                _ => None,
            },
        }
    }
}

/// `let x [= e]`.
#[derive(Debug)]
pub struct Decl {
    pub name: Ident,
    pub value: Option<Expr>,
}

/// `x = e`.
#[derive(Debug)]
pub struct Assign {
    pub name: Ident,
    pub value: Expr,
}

/// `x += e`.
#[derive(Debug)]
pub struct AddAssign {
    pub name: Ident,
    pub value: Expr,
}

/// `while e { ... }`.
#[derive(Debug)]
pub struct While {
    pub cond: Expr,
    pub body: Vec<Statement>,
}

/// `if e { ... }`.
#[derive(Debug)]
pub struct If {
    pub cond: Expr,
    pub body: Vec<Statement>,
}

/// One statement of the source language.
#[derive(Debug)]
pub enum Statement {
    Decl(Decl),
    Assign(Assign),
    AddAssign(AddAssign),
    While(While),
    If(If),
}

/// A parsed program.
#[derive(Debug)]
pub struct IR {
    pub stmts: Vec<Statement>,
}


/// A trigger marker for the cut position between two parts of a
/// derivation.
pub open spec fn parse_cut(i: int, m: int) -> bool {
    true
}

/// The tokens from `i` up to `j` derive the operand `e`: a constant, a
/// variable, or any expression in parentheses.
pub open spec fn term_parses(toks: Seq<Tok>, i: int, e: Expr, j: int) -> bool
    decreases e, j - i, 0int,
{
    ||| {
        &&& 0 <= i
        &&& j == i + 1
        &&& j <= toks.len()
        &&& match e {
            Expr::Const(v) => match toks[i].kind {
                Token::Num(n) => n == v,
                _ => false,
            },
            Expr::Var(id) => match toks[i].kind {
                Token::Ident(nm) => nm@ == id@,
                _ => false,
            },
            _ => false,
        }
    }
    ||| {
        &&& 0 <= i
        &&& i + 2 <= j
        &&& j <= toks.len()
        &&& toks[i].kind is OpenParen
        &&& toks[j - 1].kind is CloseParen
        &&& expr_parses(toks, i + 1, e, j - 1)
    }
}

/// The tokens from `i` up to `j` derive `e` on the `+`/`-` tier,
/// left-associatively.
pub open spec fn addsub_parses(toks: Seq<Tok>, i: int, e: Expr, j: int) -> bool
    decreases e, j - i, 1int,
{
    ||| term_parses(toks, i, e, j)
    ||| match e {
        Expr::Add(a, b) => exists|k: int|
            #[trigger] parse_cut(i, k) && addsub_parses(toks, i, *a, k) && 0 <= k < toks.len()
                && toks[k].kind is Plus && term_parses(toks, k + 1, *b, j),
        Expr::Sub(a, b) => exists|k: int|
            #[trigger] parse_cut(i, k) && addsub_parses(toks, i, *a, k) && 0 <= k < toks.len()
                && toks[k].kind is Minus && term_parses(toks, k + 1, *b, j),
        _ => false,
    }
}

/// The tokens from `i` up to `j` derive the expression `e`: `>` binds
/// loosest, left-associatively.
pub open spec fn expr_parses(toks: Seq<Tok>, i: int, e: Expr, j: int) -> bool
    decreases e, j - i, 2int,
{
    ||| addsub_parses(toks, i, e, j)
    ||| match e {
        Expr::Gt(a, b) => exists|k: int|
            #[trigger] parse_cut(i, k) && expr_parses(toks, i, *a, k) && 0 <= k < toks.len()
                && toks[k].kind is Gt && addsub_parses(toks, k + 1, *b, j),
        _ => false,
    }
}

/// The tokens from `i` up to `j` derive the statement `s`.
pub open spec fn stmt_parses(toks: Seq<Tok>, i: int, s: Statement, j: int) -> bool
    decreases s, 0int, 3int,
{
    match s {
        Statement::Decl(d) => {
            &&& 0 <= i
            &&& i + 2 <= toks.len()
            &&& toks[i].kind is KwLet
            &&& match toks[i + 1].kind {
                Token::Ident(nm) => nm@ == d.name@,
                _ => false,
            }
            &&& match d.value {
                None => j == i + 2 && (j >= toks.len() || !(toks[j].kind is Eq)),
                Some(e) => i + 3 <= toks.len() && toks[i + 2].kind is Eq && expr_parses(
                    toks,
                    i + 3,
                    e,
                    j,
                ),
            }
        },
        Statement::Assign(a) => {
            &&& 0 <= i
            &&& i + 2 <= toks.len()
            &&& match toks[i].kind {
                Token::Ident(nm) => nm@ == a.name@,
                _ => false,
            }
            &&& toks[i + 1].kind is Eq
            &&& expr_parses(toks, i + 2, a.value, j)
        },
        Statement::AddAssign(a) => {
            &&& 0 <= i
            &&& i + 2 <= toks.len()
            &&& match toks[i].kind {
                Token::Ident(nm) => nm@ == a.name@,
                _ => false,
            }
            &&& toks[i + 1].kind is PlusEq
            &&& expr_parses(toks, i + 2, a.value, j)
        },
        Statement::While(w) => {
            &&& 0 <= i < toks.len()
            &&& toks[i].kind is KwWhile
            &&& exists|k: int|
                #[trigger] parse_cut(i, k) && expr_parses(toks, i + 1, w.cond, k)
                    && block_parses(toks, k, w.body, j)
        },
        Statement::If(f) => {
            &&& 0 <= i < toks.len()
            &&& toks[i].kind is KwIf
            &&& exists|k: int|
                #[trigger] parse_cut(i, k) && expr_parses(toks, i + 1, f.cond, k)
                    && block_parses(toks, k, f.body, j)
        },
    }
}

/// The tokens from `i` up to `j` form `{ ... }` whose inside derives the
/// statement list `v`.
pub open spec fn block_parses(toks: Seq<Tok>, i: int, v: Vec<Statement>, j: int) -> bool
    decreases v, v@.len() + 1, 4int,
{
    &&& 0 <= i < toks.len()
    &&& toks[i].kind is OpenBrace
    &&& 0 <= j - 1 < toks.len()
    &&& toks[j - 1].kind is CloseBrace
    &&& stmts_parse(toks, i + 1, v, 0, j - 1)
}

/// The tokens from `i` up to `j` derive the statements of `v` from index
/// `k` on, one after the other.
pub open spec fn stmts_parse(toks: Seq<Tok>, i: int, v: Vec<Statement>, k: int, j: int) -> bool
    decreases v, v@.len() - k, 5int,
{
    if k < 0 || k >= v@.len() {
        j == i
    } else {
        exists|m: int|
            #[trigger] parse_cut(i, m) && stmt_parses(toks, i, v@[k], m) && stmts_parse(
                toks,
                m,
                v,
                k + 1,
                j,
            )
    }
}

/// Extending a derived statement list by one more derived statement.
pub proof fn lemma_stmts_parse_push(
    toks: Seq<Tok>,
    i: int,
    v: Vec<Statement>,
    k: int,
    j: int,
    s: Statement,
    m: int,
    v2: Vec<Statement>,
)
    requires
        stmts_parse(toks, i, v, k, j),
        stmt_parses(toks, j, s, m),
        0 <= k <= v@.len(),
        v2@ == v@.push(s),
    ensures
        stmts_parse(toks, i, v2, k, m),
    decreases v@.len() - k,
{
    reveal_with_fuel(stmts_parse, 2);
    if k >= v@.len() {
        assert(j == i);
        assert(v2@[k] == s);
        assert(parse_cut(i, m));
        assert(stmt_parses(toks, i, v2@[k], m));
        assert(stmts_parse(toks, m, v2, k + 1, m));
        assert(stmts_parse(toks, i, v2, k, m));
    } else {
        let mid = choose|mid: int|
            #[trigger] parse_cut(i, mid) && stmt_parses(toks, i, v@[k], mid) && stmts_parse(
                toks,
                mid,
                v,
                k + 1,
                j,
            );
        lemma_stmts_parse_push(toks, mid, v, k + 1, j, s, m, v2);
        assert(v2@[k] == v@[k]);
        assert(parse_cut(i, mid));
        assert(stmt_parses(toks, i, v2@[k], mid));
        assert(stmts_parse(toks, i, v2, k, m));
    }
}

/// One token with the byte position it starts at.
#[derive(Debug)]
pub struct Tok {
    pub kind: Token,
    pub pos: usize,
}

/// The tokens of the source language.
#[derive(Debug)]
pub enum Token {
    KwLet,
    KwWhile,
    KwIf,
    Ident(Vec<u8>),
    Num(u8),
    Eq,
    PlusEq,
    Plus,
    Minus,
    Gt,
    OpenBrace,
    CloseBrace,
    OpenParen,
    CloseParen,
}

/// Whether a byte may start an identifier.
pub open spec fn is_ident_start(b: u8) -> bool {
    (65 <= b <= 90) || (97 <= b <= 122) || b == 95
}

/// Whether a byte may continue an identifier.
pub open spec fn is_ident_byte(b: u8) -> bool {
    is_ident_start(b) || (48 <= b <= 57)
}

fn ident_start(b: u8) -> (r: bool)
    ensures
        r == is_ident_start(b),
{
    (65 <= b && b <= 90) || (97 <= b && b <= 122) || b == 95
}

fn ident_byte(b: u8) -> (r: bool)
    ensures
        r == is_ident_byte(b),
{
    ident_start(b) || (48 <= b && b <= 57)
}

/// Splits the input into tokens; whitespace separates them. The token
/// list is empty exactly when the input is all whitespace.
fn tokenize(bytes: &[u8]) -> (r: Result<Vec<Tok>, Error>)
    ensures
        r matches Err(e) ==> parse_error(e),
        r matches Ok(toks) ==> (toks@.len() == 0 <==> all_blank(bytes@)),
{
    let mut toks: Vec<Tok> = Vec::new();
    let n = bytes.len();
    let mut i: usize = 0;
    while i < n
        invariant
            n == bytes@.len(),
            i <= n,
            toks@.len() == 0 ==> (forall|k: int| 0 <= k < i ==> is_blank(bytes@[k])),
            toks@.len() > 0 ==> !all_blank(bytes@),
        decreases n - i,
    {
        let b = bytes[i];
        if b == 32 || b == 9 || b == 10 || b == 13 {
            i = i + 1;
        } else if ident_start(b) {
            let start = i;
            let mut name: Vec<u8> = Vec::new();
            while i < n && ident_byte(bytes[i])
                invariant
                    n == bytes@.len(),
                    start <= i <= n,
                decreases n - i,
            {
                name.push(bytes[i]);
                i = i + 1;
            }
            let kind = if name.len() == 3 && name[0] == 108 && name[1] == 101 && name[2] == 116 {
                Token::KwLet
            } else if name.len() == 5 && name[0] == 119 && name[1] == 104 && name[2] == 105
                && name[3] == 108 && name[4] == 101 {
                Token::KwWhile
            } else if name.len() == 2 && name[0] == 105 && name[1] == 102 {
                Token::KwIf
            } else {
                Token::Ident(name)
            };
            toks.push(Tok { kind, pos: start });
        } else if 48 <= b && b <= 57 {
            let start = i;
            let mut value: usize = 0;
            while i < n && 48 <= bytes[i] && bytes[i] <= 57
                invariant
                    n == bytes@.len(),
                    start <= i <= n,
                    value <= 255,
                decreases n - i,
            {
                value = value * 10 + ((bytes[i] - 48) as usize);
                if value > 255 {
                    return Err(Error::NumberTooLarge { pos: start });
                }
                i = i + 1;
            }
            toks.push(Tok { kind: Token::Num(value as u8), pos: start });
        } else if b == 39 {
            if n - i < 3 {
                return Err(Error::Parse { pos: i, expected: Expected::CloseQuote });
            }
            if bytes[i + 2] != 39 {
                return Err(Error::Parse { pos: i + 2, expected: Expected::CloseQuote });
            }
            toks.push(Tok { kind: Token::Num(bytes[i + 1]), pos: i });
            i = i + 3;
        } else if b == 61 {
            toks.push(Tok { kind: Token::Eq, pos: i });
            i = i + 1;
        } else if b == 43 {
            if i + 1 < n && bytes[i + 1] == 61 {
                toks.push(Tok { kind: Token::PlusEq, pos: i });
                i = i + 2;
            } else {
                toks.push(Tok { kind: Token::Plus, pos: i });
                i = i + 1;
            }
        } else if b == 45 {
            toks.push(Tok { kind: Token::Minus, pos: i });
            i = i + 1;
        } else if b == 62 {
            toks.push(Tok { kind: Token::Gt, pos: i });
            i = i + 1;
        } else if b == 123 {
            toks.push(Tok { kind: Token::OpenBrace, pos: i });
            i = i + 1;
        } else if b == 125 {
            toks.push(Tok { kind: Token::CloseBrace, pos: i });
            i = i + 1;
        } else if b == 40 {
            toks.push(Tok { kind: Token::OpenParen, pos: i });
            i = i + 1;
        } else if b == 41 {
            toks.push(Tok { kind: Token::CloseParen, pos: i });
            i = i + 1;
        } else {
            return Err(Error::Parse { pos: i, expected: Expected::Token });
        }
    }
    Ok(toks)
}

/// The byte position of the token at `i`, or the input length at the end.
fn tok_pos(toks: &Vec<Tok>, i: usize, end: usize) -> (r: usize) {
    if i < toks.len() {
        toks[i].pos
    } else {
        end
    }
}

/// Parses one operand: a constant, a variable, or `( expr )`.
fn parse_term(toks: &Vec<Tok>, i: usize, end: usize) -> (r: Result<(Expr, usize), Error>)
    ensures
        r matches Ok(p) ==> i < p.1 <= toks@.len() && term_parses(
            toks@,
            i as int,
            p.0,
            p.1 as int,
        ),
        r matches Err(e) ==> parse_error(e),
    decreases toks@.len() - i, 0int,
{
    if i >= toks.len() {
        return Err(Error::Parse { pos: end, expected: Expected::Term });
    }
    match &toks[i].kind {
        Token::Num(v) => Ok((Expr::Const(*v), i + 1)),
        Token::Ident(name) => Ok((Expr::Var(Ident::new(clone_bytes(name))), i + 1)),
        Token::OpenParen => {
            let (e, j) = parse_expr(toks, i + 1, end)?;
            if j >= toks.len() {
                return Err(Error::Parse { pos: end, expected: Expected::CloseParen });
            }
            match &toks[j].kind {
                Token::CloseParen => {
                    proof {
                        assert(term_parses(toks@, i as int, e, (j + 1) as int));
                    }
                    Ok((e, j + 1))
                },
                _ => Err(Error::Parse { pos: toks[j].pos, expected: Expected::CloseParen }),
            }
        },
        _ => Err(Error::Parse { pos: toks[i].pos, expected: Expected::Term }),
    }
}

/// Parses a chain of `+`/`-`, left-associative.
fn parse_addsub(toks: &Vec<Tok>, i: usize, end: usize) -> (r: Result<(Expr, usize), Error>)
    ensures
        r matches Ok(p) ==> i < p.1 <= toks@.len() && addsub_parses(
            toks@,
            i as int,
            p.0,
            p.1 as int,
        ),
        r matches Err(e) ==> parse_error(e),
    decreases toks@.len() - i, 1int,
{
    let (first, j) = parse_term(toks, i, end)?;
    let mut lhs = first;
    let mut j = j;
    loop
        invariant
            i < j <= toks@.len(),
            addsub_parses(toks@, i as int, lhs, j as int),
        decreases toks@.len() - j,
    {
        if j >= toks.len() {
            return Ok((lhs, j));
        }
        let is_add = match &toks[j].kind {
            Token::Plus => true,
            _ => false,
        };
        let is_sub = match &toks[j].kind {
            Token::Minus => true,
            _ => false,
        };
        if !is_add && !is_sub {
            return Ok((lhs, j));
        }
        let ghost j_snap = j as int;
        let (rhs, k) = parse_term(toks, j + 1, end)?;
        lhs = if is_add {
            Expr::Add(Box::new(lhs), Box::new(rhs))
        } else {
            Expr::Sub(Box::new(lhs), Box::new(rhs))
        };
        proof {
            assert(parse_cut(i as int, j_snap));
            assert(addsub_parses(toks@, i as int, lhs, k as int));
        }
        j = k;
    }
}

/// Parses a chain of `>`, left-associative and binding loosest.
fn parse_expr(toks: &Vec<Tok>, i: usize, end: usize) -> (r: Result<(Expr, usize), Error>)
    ensures
        r matches Ok(p) ==> i < p.1 <= toks@.len() && expr_parses(
            toks@,
            i as int,
            p.0,
            p.1 as int,
        ),
        r matches Err(e) ==> parse_error(e),
    decreases toks@.len() - i, 2int,
{
    let (first, j) = parse_addsub(toks, i, end)?;
    let mut lhs = first;
    let mut j = j;
    loop
        invariant
            i < j <= toks@.len(),
            expr_parses(toks@, i as int, lhs, j as int),
        decreases toks@.len() - j,
    {
        if j >= toks.len() {
            return Ok((lhs, j));
        }
        let is_gt = match &toks[j].kind {
            Token::Gt => true,
            _ => false,
        };
        if !is_gt {
            return Ok((lhs, j));
        }
        let ghost j_snap = j as int;
        let (rhs, k) = parse_addsub(toks, j + 1, end)?;
        lhs = Expr::Gt(Box::new(lhs), Box::new(rhs));
        proof {
            assert(parse_cut(i as int, j_snap));
            assert(expr_parses(toks@, i as int, lhs, k as int));
        }
        j = k;
    }
}

/// Parses one statement.
fn parse_stmt(toks: &Vec<Tok>, i: usize, end: usize) -> (r: Result<(Statement, usize), Error>)
    ensures
        r matches Ok(p) ==> i < p.1 <= toks@.len() && stmt_parses(
            toks@,
            i as int,
            p.0,
            p.1 as int,
        ),
        r matches Err(e) ==> parse_error(e),
    decreases toks@.len() - i, 3int,
{
    if i >= toks.len() {
        return Err(Error::Parse { pos: end, expected: Expected::Stmt });
    }
    match &toks[i].kind {
        Token::KwLet => {
            if i + 1 >= toks.len() {
                return Err(Error::Parse { pos: end, expected: Expected::Stmt });
            }
            let name = match &toks[i + 1].kind {
                Token::Ident(name) => Ident::new(clone_bytes(name)),
                _ => {
                    return Err(Error::Parse { pos: toks[i + 1].pos, expected: Expected::Stmt });
                },
            };
            let mut has_value = false;
            if i + 2 < toks.len() {
                match &toks[i + 2].kind {
                    Token::Eq => {
                        has_value = true;
                    },
                    _ => {},
                }
            }
            if has_value {
                let (value, j) = parse_expr(toks, i + 3, end)?;
                let stmt = Statement::Decl(Decl { name, value: Some(value) });
                proof {
                    assert(stmt_parses(toks@, i as int, stmt, j as int));
                }
                Ok((stmt, j))
            } else {
                let stmt = Statement::Decl(Decl { name, value: None });
                proof {
                    assert(stmt_parses(toks@, i as int, stmt, (i + 2) as int));
                }
                Ok((stmt, i + 2))
            }
        },
        Token::KwWhile => {
            let (cond, j) = parse_expr(toks, i + 1, end)?;
            let (body, k) = parse_block(toks, j, end)?;
            let stmt = Statement::While(While { cond, body });
            proof {
                assert(parse_cut(i as int, j as int));
                assert(stmt_parses(toks@, i as int, stmt, k as int));
            }
            Ok((stmt, k))
        },
        Token::KwIf => {
            let (cond, j) = parse_expr(toks, i + 1, end)?;
            let (body, k) = parse_block(toks, j, end)?;
            let stmt = Statement::If(If { cond, body });
            proof {
                assert(parse_cut(i as int, j as int));
                assert(stmt_parses(toks@, i as int, stmt, k as int));
            }
            Ok((stmt, k))
        },
        Token::Ident(name) => {
            let name = Ident::new(clone_bytes(name));
            if i + 1 >= toks.len() {
                return Err(Error::Parse { pos: end, expected: Expected::AssignOp });
            }
            let is_eq = match &toks[i + 1].kind {
                Token::Eq => true,
                _ => false,
            };
            let is_plus_eq = match &toks[i + 1].kind {
                Token::PlusEq => true,
                _ => false,
            };
            if is_eq {
                let (value, j) = parse_expr(toks, i + 2, end)?;
                let stmt = Statement::Assign(Assign { name, value });
                proof {
                    assert(stmt_parses(toks@, i as int, stmt, j as int));
                }
                Ok((stmt, j))
            } else if is_plus_eq {
                let (value, j) = parse_expr(toks, i + 2, end)?;
                let stmt = Statement::AddAssign(AddAssign { name, value });
                proof {
                    assert(stmt_parses(toks@, i as int, stmt, j as int));
                }
                Ok((stmt, j))
            } else {
                Err(Error::Parse { pos: toks[i + 1].pos, expected: Expected::AssignOp })
            }
        },
        _ => Err(Error::Parse { pos: toks[i].pos, expected: Expected::Stmt }),
    }
}

/// Parses `{ stmt* }`.
fn parse_block(toks: &Vec<Tok>, i: usize, end: usize) -> (r: Result<(Vec<Statement>, usize), Error>)
    ensures
        r matches Ok(p) ==> i < p.1 <= toks@.len() && block_parses(
            toks@,
            i as int,
            p.0,
            p.1 as int,
        ),
        r matches Err(e) ==> parse_error(e),
    decreases toks@.len() - i, 4int,
{
    if i >= toks.len() {
        return Err(Error::Parse { pos: end, expected: Expected::OpenBrace });
    }
    match &toks[i].kind {
        Token::OpenBrace => {},
        _ => {
            return Err(Error::Parse { pos: toks[i].pos, expected: Expected::OpenBrace });
        },
    }
    let mut body: Vec<Statement> = Vec::new();
    let mut j = i + 1;
    loop
        invariant
            i < j <= toks@.len(),
            0 <= i < toks@.len(),
            toks@[i as int].kind is OpenBrace,
            stmts_parse(toks@, (i + 1) as int, body, 0, j as int),
        decreases toks@.len() - j,
    {
        if j >= toks.len() {
            return Err(Error::Parse { pos: end, expected: Expected::CloseBrace });
        }
        let done = match &toks[j].kind {
            Token::CloseBrace => true,
            _ => false,
        };
        if done {
            proof {
                assert(block_parses(toks@, i as int, body, (j + 1) as int));
            }
            return Ok((body, j + 1));
        }
        let ghost body_snap = body;
        let ghost j_snap = j as int;
        let (stmt, k) = parse_stmt(toks, j, end)?;
        body.push(stmt);
        proof {
            lemma_stmts_parse_push(
                toks@,
                (i + 1) as int,
                body_snap,
                0,
                j_snap,
                stmt,
                k as int,
                body,
            );
        }
        j = k;
    }
}

impl IR {
    /// Parses a whole program; a failure carries the byte position and
    /// what the grammar expected there, or flags an oversized constant.
    /// On success the syntax tree derives from the input: its statements
    /// derive the whole token stream, and it is empty exactly when the
    /// input is all whitespace.
    pub fn parse_str(code: &str) -> (r: Result<IR, Error>)
        ensures
            r matches Err(e) ==> parse_error(e),
            r matches Ok(ir) ==> (ir.stmts@.len() == 0 <==> all_blank(code.spec_bytes())),
    {
        let bytes = code.as_bytes();
        Self::parse_bytes(bytes)
    }

    /// Parses a whole program given as bytes.
    pub fn parse_bytes(bytes: &[u8]) -> (r: Result<IR, Error>)
        ensures
            r matches Err(e) ==> parse_error(e),
            r matches Ok(ir) ==> (ir.stmts@.len() == 0 <==> all_blank(bytes@)),
    {
        let toks = tokenize(bytes)?;
        let end = bytes.len();
        Self::parse_tokens(&toks, end)
    }

    /// Parses a whole program given as tokens: on success, the statements
    /// derive exactly the whole token stream under the grammar.
    pub fn parse_tokens(toks: &Vec<Tok>, end: usize) -> (r: Result<IR, Error>)
        ensures
            r matches Err(e) ==> parse_error(e),
            r matches Ok(ir) ==> stmts_parse(toks@, 0, ir.stmts, 0, toks@.len() as int),
            r matches Ok(ir) ==> (ir.stmts@.len() == 0 <==> toks@.len() == 0),
    {
        let mut stmts: Vec<Statement> = Vec::new();
        let mut i: usize = 0;
        loop
            invariant
                i <= toks@.len(),
                stmts_parse(toks@, 0, stmts, 0, i as int),
                stmts@.len() == 0 ==> i == 0,
                i == 0 ==> stmts@.len() == 0,
            decreases toks@.len() - i,
        {
            if i >= toks.len() {
                return Ok(IR { stmts });
            }
            let ghost stmts_snap = stmts;
            let ghost i_snap = i as int;
            let (stmt, j) = parse_stmt(&toks, i, end)?;
            stmts.push(stmt);
            proof {
                lemma_stmts_parse_push(toks@, 0, stmts_snap, 0, i_snap, stmt, j as int, stmts);
            }
            i = j;
        }
    }
}

} // verus!
