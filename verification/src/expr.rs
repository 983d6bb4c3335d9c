//! The arithmetic a recipe number may be written in, read: `+ - * / ^`,
//! unary signs, parentheses, decimal numbers, names of parameters and
//! `pi`, and the functions `sin cos tan sqrt radians degrees abs` of one
//! argument. Reading it gives the expression's tree, or the first thing
//! wrong with it from the left; its numbers are computed from the tree.

use vstd::prelude::*;
use vstd::utf8::{encode_scalar, encode_utf8};
use crate::text::{chars_of, string_of};

verus! {

/// A function an expression may call.
#[derive(Debug, Clone, Copy, PartialEq, Eq, Structural)]
pub enum Func {
    Sin,
    Cos,
    Tan,
    Sqrt,
    Radians,
    Degrees,
    Abs,
}

/// An expression's tree, as read.
pub enum Ast {
    Number(Seq<char>),
    Param(Seq<char>),
    Pi,
    Neg(Box<Ast>),
    Add(Box<Ast>, Box<Ast>),
    Sub(Box<Ast>, Box<Ast>),
    Mul(Box<Ast>, Box<Ast>),
    Div(Box<Ast>, Box<Ast>),
    Pow(Box<Ast>, Box<Ast>),
    Call(Func, Box<Ast>),
}

/// What is wrong with an expression, where reading it stopped: a
/// character that is not part of the grammar at a place, a number that
/// is no number between two places, a name that is neither a parameter
/// nor `pi`, a function not in the table with the arguments it was given.
pub enum Fault {
    Unexpected(int),
    BadNumber(int, int),
    UnknownName(Seq<char>),
    UnknownFunction(Seq<char>, nat),
}

/// What reading from a place gives: a tree and the place after it, or
/// what is wrong.
pub type Read = Result<(Ast, int), Fault>;

/// The first place from `p` on that is not a space.
pub open spec fn skip(t: Seq<char>, p: int) -> int
    decreases t.len() - p,
{
    if 0 <= p < t.len() && t[p] == ' ' {
        skip(t, p + 1)
    } else {
        p
    }
}

/// Whether `t` has `c` at `p`, after any spaces.
pub open spec fn at(t: Seq<char>, p: int, c: char) -> bool {
    let s = skip(t, p);
    0 <= s < t.len() && t[s] == c
}

/// Whether `c` may start or continue a number's digits.
pub open spec fn number_char(c: char) -> bool {
    ('0' <= c <= '9') || c == '.'
}

/// Whether `c` may continue a name.
pub open spec fn name_char(c: char) -> bool {
    ('a' <= c <= 'z') || ('A' <= c <= 'Z') || ('0' <= c <= '9') || c == '_'
}

/// The end of the run of characters `ok` from `p`.
pub open spec fn run_end(t: Seq<char>, p: int, kind: nat) -> int
    decreases t.len() - p,
{
    if 0 <= p < t.len() && (if kind == 0 {
        number_char(t[p])
    } else if kind == 1 {
        name_char(t[p])
    } else {
        '0' <= t[p] <= '9'
    }) {
        run_end(t, p + 1, kind)
    } else {
        p
    }
}

/// The end of the number that starts at `p`: its digits and points, and
/// an exponent where one with digits follows.
pub open spec fn number_end(t: Seq<char>, p: int) -> int {
    let e = run_end(t, p, 0);
    if 0 <= e < t.len() && (t[e] == 'e' || t[e] == 'E') {
        let s1 = e + 1;
        let s2 = if s1 < t.len() && (t[s1] == '+' || t[s1] == '-') { s1 + 1 } else { s1 };
        let d = run_end(t, s2, 2);
        if d == s2 {
            e
        } else {
            d
        }
    } else {
        e
    }
}

/// Whether the digits and points `m` are a number's: one digit or more,
/// one point at most.
pub open spec fn good_mantissa(m: Seq<char>) -> bool {
    &&& exists|i: int| 0 <= i < m.len() && '0' <= #[trigger] m[i] <= '9'
    &&& forall|i: int, j: int| 0 <= i < j < m.len() ==> !(#[trigger] m[i] == '.' && #[trigger] m[j] == '.')
}

/// The function of the table `name` with `arity` arguments names.
pub open spec fn func_of(name: Seq<char>, arity: nat) -> Option<Func> {
    if arity != 1 {
        None
    } else if name == "sin"@ {
        Some(Func::Sin)
    } else if name == "cos"@ {
        Some(Func::Cos)
    } else if name == "tan"@ {
        Some(Func::Tan)
    } else if name == "sqrt"@ {
        Some(Func::Sqrt)
    } else if name == "radians"@ {
        Some(Func::Radians)
    } else if name == "degrees"@ {
        Some(Func::Degrees)
    } else if name == "abs"@ {
        Some(Func::Abs)
    } else {
        None
    }
}

/// The name an expression calls `f` by.
pub open spec fn func_name(f: Func) -> Seq<char> {
    match f {
        Func::Sin => "sin"@,
        Func::Cos => "cos"@,
        Func::Tan => "tan"@,
        Func::Sqrt => "sqrt"@,
        Func::Radians => "radians"@,
        Func::Degrees => "degrees"@,
        Func::Abs => "abs"@,
    }
}

/// The function table: each of `sin`, `cos`, `tan`, `sqrt`, `radians`,
/// `degrees` and `abs`, called with one argument, is the function of
/// that name, and a name calls a function only as that function's own
/// name with one argument.
pub proof fn lemma_func_table(f: Func, name: Seq<char>, arity: nat)
    ensures
        func_of("sin"@, 1) == Some(Func::Sin),
        func_of("cos"@, 1) == Some(Func::Cos),
        func_of("tan"@, 1) == Some(Func::Tan),
        func_of("sqrt"@, 1) == Some(Func::Sqrt),
        func_of("radians"@, 1) == Some(Func::Radians),
        func_of("degrees"@, 1) == Some(Func::Degrees),
        func_of("abs"@, 1) == Some(Func::Abs),
        func_of(func_name(f), 1) == Some(f),
        func_of(name, arity) == Some(f) <==> (arity == 1 && name == func_name(f)),
{
    reveal_strlit("sin");
    reveal_strlit("cos");
    reveal_strlit("tan");
    reveal_strlit("sqrt");
    reveal_strlit("radians");
    reveal_strlit("degrees");
    reveal_strlit("abs");
    assert("sin"@[0] != "cos"@[0] && "sin"@[0] != "tan"@[0] && "sin"@[0] != "abs"@[0]);
    assert("cos"@[0] != "tan"@[0] && "cos"@[0] != "abs"@[0] && "tan"@[0] != "abs"@[0]);
    assert("radians"@[0] != "degrees"@[0]);
    assert("sin"@.len() == 3 && "cos"@.len() == 3 && "tan"@.len() == 3 && "abs"@.len() == 3);
    assert("sqrt"@.len() == 4 && "radians"@.len() == 7 && "degrees"@.len() == 7);
    match f {
        Func::Sin => {},
        Func::Cos => assert("cos"@ != "sin"@),
        Func::Tan => assert("tan"@ != "sin"@ && "tan"@ != "cos"@),
        Func::Sqrt => assert("sqrt"@ != "sin"@ && "sqrt"@ != "cos"@ && "sqrt"@ != "tan"@),
        Func::Radians => {},
        Func::Degrees => assert("degrees"@ != "radians"@),
        Func::Abs => assert("abs"@ != "sin"@ && "abs"@ != "cos"@ && "abs"@ != "tan"@),
    }
    assert("sqrt"@ != "sin"@ && "sqrt"@ != "cos"@ && "sqrt"@ != "tan"@);
}

/// A number read at `p` (after any spaces).
pub open spec fn read_number(t: Seq<char>, p: int) -> Read {
    let e = number_end(t, p);
    let m = t.subrange(p, run_end(t, p, 0));
    if good_mantissa(m) {
        Ok((Ast::Number(t.subrange(p, e)), e))
    } else {
        Err(Fault::BadNumber(p, e))
    }
}

/// A sum or difference: terms joined by `+` and `-`, left to right.
pub open spec fn read_expr(t: Seq<char>, ps: Seq<Seq<char>>, p: int) -> Read
    decreases t.len() - p, 5nat,
{
    if p < 0 || p > t.len() {
        Err(Fault::Unexpected(p))
    } else {
        match read_term(t, ps, p) {
            Err(f) => Err(f),
            Ok((a, q)) => if q <= p || q > t.len() {
                Err(Fault::Unexpected(q))
            } else {
                read_expr_rest(t, ps, a, q)
            },
        }
    }
}

/// The rest of a sum after `acc`, from `p`.
pub open spec fn read_expr_rest(t: Seq<char>, ps: Seq<Seq<char>>, acc: Ast, p: int) -> Read
    decreases t.len() - p, 6nat,
{
    if p < 0 || p > t.len() {
        Err(Fault::Unexpected(p))
    } else {
        let s = skip(t, p);
        proof {
            lemma_skip(t, p);
        }
        if at(t, p, '+') || at(t, p, '-') {
            match read_term(t, ps, s + 1) {
                Err(f) => Err(f),
                Ok((b, q)) => if q <= s + 1 || q > t.len() {
                    Err(Fault::Unexpected(q))
                } else {
                    let v = if t[s] == '+' {
                        Ast::Add(Box::new(acc), Box::new(b))
                    } else {
                        Ast::Sub(Box::new(acc), Box::new(b))
                    };
                    read_expr_rest(t, ps, v, q)
                },
            }
        } else {
            Ok((acc, s))
        }
    }
}

/// A product or quotient: signed powers joined by `*` and `/`.
pub open spec fn read_term(t: Seq<char>, ps: Seq<Seq<char>>, p: int) -> Read
    decreases t.len() - p, 4nat,
{
    if p < 0 || p > t.len() {
        Err(Fault::Unexpected(p))
    } else {
        match read_unary(t, ps, p) {
            Err(f) => Err(f),
            Ok((a, q)) => if q <= p || q > t.len() {
                Err(Fault::Unexpected(q))
            } else {
                read_term_rest(t, ps, a, q)
            },
        }
    }
}

/// The rest of a product after `acc`, from `p`.
pub open spec fn read_term_rest(t: Seq<char>, ps: Seq<Seq<char>>, acc: Ast, p: int) -> Read
    decreases t.len() - p, 6nat,
{
    if p < 0 || p > t.len() {
        Err(Fault::Unexpected(p))
    } else {
        let s = skip(t, p);
        proof {
            lemma_skip(t, p);
        }
        if at(t, p, '*') || at(t, p, '/') {
            match read_unary(t, ps, s + 1) {
                Err(f) => Err(f),
                Ok((b, q)) => if q <= s + 1 || q > t.len() {
                    Err(Fault::Unexpected(q))
                } else {
                    let v = if t[s] == '*' {
                        Ast::Mul(Box::new(acc), Box::new(b))
                    } else {
                        Ast::Div(Box::new(acc), Box::new(b))
                    };
                    read_term_rest(t, ps, v, q)
                },
            }
        } else {
            Ok((acc, s))
        }
    }
}

/// A power with any signs before it: `-` negates, `+` keeps.
pub open spec fn read_unary(t: Seq<char>, ps: Seq<Seq<char>>, p: int) -> Read
    decreases t.len() - p, 3nat,
{
    if p < 0 || p > t.len() {
        Err(Fault::Unexpected(p))
    } else {
        let s = skip(t, p);
        proof {
            lemma_skip(t, p);
        }
        if at(t, p, '-') {
            match read_unary(t, ps, s + 1) {
                Err(f) => Err(f),
                Ok((a, q)) => Ok((Ast::Neg(Box::new(a)), q)),
            }
        } else if at(t, p, '+') {
            read_unary(t, ps, s + 1)
        } else {
            read_power(t, ps, p)
        }
    }
}

/// An atom, raised to a signed power where `^` follows.
pub open spec fn read_power(t: Seq<char>, ps: Seq<Seq<char>>, p: int) -> Read
    decreases t.len() - p, 2nat,
{
    if p < 0 || p > t.len() {
        Err(Fault::Unexpected(p))
    } else {
        match read_atom(t, ps, p) {
            Err(f) => Err(f),
            Ok((a, q)) => if q <= p || q > t.len() {
                Err(Fault::Unexpected(q))
            } else if at(t, q, '^') {
                proof {
                    lemma_skip(t, q);
                }
                match read_unary(t, ps, skip(t, q) + 1) {
                    Err(f) => Err(f),
                    Ok((b, r)) => Ok((Ast::Pow(Box::new(a), Box::new(b)), r)),
                }
            } else {
                Ok((a, skip(t, q)))
            },
        }
    }
}

/// A parenthesised sum, a number, or a name.
pub open spec fn read_atom(t: Seq<char>, ps: Seq<Seq<char>>, p: int) -> Read
    decreases t.len() - p, 1nat,
{
    if p < 0 || p > t.len() {
        Err(Fault::Unexpected(p))
    } else {
        let s = skip(t, p);
        proof {
            lemma_skip(t, p);
        }
        if at(t, p, '(') {
            match read_expr(t, ps, s + 1) {
                Err(f) => Err(f),
                Ok((a, q)) => if at(t, q, ')') {
                    Ok((a, skip(t, q) + 1))
                } else {
                    Err(Fault::Unexpected(skip(t, q)))
                },
            }
        } else if s < t.len() && number_char(t[s]) {
            read_number(t, s)
        } else if s < t.len() && (('a' <= t[s] <= 'z') || ('A' <= t[s] <= 'Z') || t[s] == '_') {
            proof {
                lemma_skip(t, p);
            }
            read_name(t, ps, s)
        } else {
            Err(Fault::Unexpected(s))
        }
    }
}

/// A name: a call where `(` follows, else a parameter or `pi`.
pub open spec fn read_name(t: Seq<char>, ps: Seq<Seq<char>>, p: int) -> Read
    decreases t.len() - p, 0nat,
{
    if p < 0 || p >= t.len() {
        Err(Fault::Unexpected(p))
    } else {
        let e = run_end(t, p, 1);
        let name = t.subrange(p, e);
        if at(t, e, '(') {
            proof {
                lemma_run_end(t, p, 1);
                lemma_skip(t, e);
            }
            if e <= p {
                Err(Fault::Unexpected(e))
            } else {
                match read_call_args(t, ps, skip(t, e) + 1) {
                    Err(f) => Err(f),
                    Ok((args, q)) => match func_of(name, args.len()) {
                        Some(f) => Ok((Ast::Call(f, Box::new(args[0])), q)),
                        None => Err(Fault::UnknownFunction(name, args.len())),
                    },
                }
            }
        } else if ps.contains(name) {
            Ok((Ast::Param(name), skip(t, e)))
        } else if name == "pi"@ {
            Ok((Ast::Pi, skip(t, e)))
        } else {
            Err(Fault::UnknownName(name))
        }
    }
}

/// A call's arguments after its `(`: none where `)` follows at once, else
/// sums separated by `,` up to `)`.
pub open spec fn read_call_args(t: Seq<char>, ps: Seq<Seq<char>>, p: int) -> Result<(Seq<Ast>, int), Fault>
    decreases t.len() - p, 8nat,
{
    if p < 0 || p > t.len() {
        Err(Fault::Unexpected(p))
    } else if at(t, p, ')') {
        Ok((Seq::empty(), skip(t, p) + 1))
    } else {
        read_args(t, ps, Seq::empty(), p)
    }
}

/// The arguments from `p` on, after `acc`.
pub open spec fn read_args(t: Seq<char>, ps: Seq<Seq<char>>, acc: Seq<Ast>, p: int) -> Result<(Seq<Ast>, int), Fault>
    decreases t.len() - p, 7nat,
{
    if p < 0 || p > t.len() {
        Err(Fault::Unexpected(p))
    } else {
        match read_expr(t, ps, p) {
            Err(f) => Err(f),
            Ok((a, q)) => if q <= p || q > t.len() {
                Err(Fault::Unexpected(q))
            } else {
                proof {
                    lemma_skip(t, q);
                }
                if at(t, q, ',') {
                    read_args(t, ps, acc.push(a), skip(t, q) + 1)
                } else if at(t, q, ')') {
                    Ok((acc.push(a), skip(t, q) + 1))
                } else {
                    Err(Fault::Unexpected(skip(t, q)))
                }
            },
        }
    }
}

/// `t` read whole: a sum, then nothing but spaces.
pub open spec fn read_all(t: Seq<char>, ps: Seq<Seq<char>>) -> Result<Ast, Fault> {
    match read_expr(t, ps, 0) {
        Err(f) => Err(f),
        Ok((a, q)) => if skip(t, q) != t.len() {
            Err(Fault::Unexpected(skip(t, q)))
        } else {
            Ok(a)
        },
    }
}

/// `skip` moves forward over spaces only, and stays in `t`.
pub proof fn lemma_skip(t: Seq<char>, p: int)
    requires
        0 <= p <= t.len(),
    ensures
        p <= skip(t, p) <= t.len(),
        forall|i: int| p <= i < skip(t, p) ==> t[i] == ' ',
        skip(t, p) == t.len() || t[skip(t, p)] != ' ',
    decreases t.len() - p,
{
    if p < t.len() && t[p] == ' ' {
        lemma_skip(t, p + 1);
    }
}

/// `run_end` moves forward, and stays in `t`.
pub proof fn lemma_run_end(t: Seq<char>, p: int, kind: nat)
    requires
        0 <= p <= t.len(),
    ensures
        p <= run_end(t, p, kind) <= t.len(),
    decreases t.len() - p,
{
    if p < t.len() && run_end(t, p, kind) != p {
        lemma_run_end(t, p + 1, kind);
    }
}

} // verus!

verus! {

/// An expression's tree.
#[derive(Debug, PartialEq)]
pub enum Expr {
    /// A decimal number, as written.
    Number(String),
    /// A parameter, by name.
    Param(String),
    /// `pi`.
    Pi,
    /// `-a`.
    Neg(Box<Expr>),
    /// `a + b`.
    Add(Box<Expr>, Box<Expr>),
    /// `a - b`.
    Sub(Box<Expr>, Box<Expr>),
    /// `a * b`.
    Mul(Box<Expr>, Box<Expr>),
    /// `a / b`.
    Div(Box<Expr>, Box<Expr>),
    /// `a ^ b`.
    Pow(Box<Expr>, Box<Expr>),
    /// A function of one argument.
    Call(Func, Box<Expr>),
}

/// The tree `e` is.
pub open spec fn ast_of(e: Expr) -> Ast
    decreases e,
{
    match e {
        Expr::Number(s) => Ast::Number(s@),
        Expr::Param(s) => Ast::Param(s@),
        Expr::Pi => Ast::Pi,
        Expr::Neg(a) => Ast::Neg(Box::new(ast_of(*a))),
        Expr::Add(a, b) => Ast::Add(Box::new(ast_of(*a)), Box::new(ast_of(*b))),
        Expr::Sub(a, b) => Ast::Sub(Box::new(ast_of(*a)), Box::new(ast_of(*b))),
        Expr::Mul(a, b) => Ast::Mul(Box::new(ast_of(*a)), Box::new(ast_of(*b))),
        Expr::Div(a, b) => Ast::Div(Box::new(ast_of(*a)), Box::new(ast_of(*b))),
        Expr::Pow(a, b) => Ast::Pow(Box::new(ast_of(*a)), Box::new(ast_of(*b))),
        Expr::Call(f, a) => Ast::Call(f, Box::new(ast_of(*a))),
    }
}

/// Where reading stopped, and why.
enum Stop {
    Unexpected(usize),
    BadNumber(usize, usize),
    UnknownName(Vec<char>),
    UnknownFunction(Vec<char>, usize),
}

spec fn fault_of(s: Stop) -> Fault {
    match s {
        Stop::Unexpected(p) => Fault::Unexpected(p as int),
        Stop::BadNumber(p, e) => Fault::BadNumber(p as int, e as int),
        Stop::UnknownName(n) => Fault::UnknownName(n@),
        Stop::UnknownFunction(n, k) => Fault::UnknownFunction(n@, k as nat),
    }
}

/// Whether `r` is what `want` reads.
spec fn reads(r: Result<(Expr, usize), Stop>, want: Read) -> bool {
    match r {
        Ok((e, q)) => want == Ok::<(Ast, int), Fault>((ast_of(e), q as int)),
        Err(s) => want == Err::<(Ast, int), Fault>(fault_of(s)),
    }
}

/// The names of the parameters.
pub open spec fn names_of(ps: Seq<Vec<char>>) -> Seq<Seq<char>> {
    ps.map_values(|n: Vec<char>| n@)
}

fn skip_at(t: &[char], p: usize) -> (s: usize)
    requires
        p <= t@.len(),
    ensures
        s == skip(t@, p as int),
    decreases t@.len() - p,
{
    if p < t.len() && t[p] == ' ' {
        skip_at(t, p + 1)
    } else {
        p
    }
}

fn at_char(t: &[char], p: usize, c: char) -> (r: bool)
    requires
        p <= t@.len(),
    ensures
        r == at(t@, p as int, c),
{
    let s = skip_at(t, p);
    s < t.len() && t[s] == c
}

fn run_end_at(t: &[char], p: usize, kind: u8) -> (e: usize)
    requires
        p <= t@.len(),
        kind <= 2,
    ensures
        e == run_end(t@, p as int, kind as nat),
    decreases t@.len() - p,
{
    if p < t.len() {
        let c = t[p];
        let ok = if kind == 0 {
            ('0' <= c && c <= '9') || c == '.'
        } else if kind == 1 {
            ('a' <= c && c <= 'z') || ('A' <= c && c <= 'Z') || ('0' <= c && c <= '9') || c == '_'
        } else {
            '0' <= c && c <= '9'
        };
        if ok {
            return run_end_at(t, p + 1, kind);
        }
    }
    p
}

fn mantissa_ok(t: &[char], p: usize, e: usize) -> (r: bool)
    requires
        p <= e <= t@.len(),
    ensures
        r == good_mantissa(t@.subrange(p as int, e as int)),
{
    let ghost m = t@.subrange(p as int, e as int);
    let mut digit = false;
    let mut dot = false;
    let mut ok = true;
    let mut k = p;
    while k < e
        invariant
            p <= k <= e <= t@.len(),
            m == t@.subrange(p as int, e as int),
            digit == (exists|i: int| 0 <= i < k - p && '0' <= #[trigger] m[i] <= '9'),
            dot == (exists|i: int| 0 <= i < k - p && #[trigger] m[i] == '.'),
            ok == (forall|i: int, j: int| 0 <= i < j < k - p ==> !(#[trigger] m[i] == '.' && #[trigger] m[j] == '.')),
        decreases e - k,
    {
        let c = t[k];
        assert(m[k - p] == c);
        let ghost was_dot = dot;
        let ghost was_ok = ok;
        if '0' <= c && c <= '9' {
            digit = true;
        }
        if c == '.' {
            if dot {
                ok = false;
            }
            dot = true;
        }
        proof {
            let n = k + 1 - p;
            if c == '.' && was_dot {
                let i = choose|i: int| 0 <= i < k - p && #[trigger] m[i] == '.';
                assert(m[i] == '.' && m[k - p] == '.');
                assert(!(forall|a: int, b: int| 0 <= a < b < n ==> !(#[trigger] m[a] == '.' && #[trigger] m[b] == '.')));
            } else {
                assert((forall|a: int, b: int| 0 <= a < b < n ==> !(#[trigger] m[a] == '.' && #[trigger] m[b] == '.')) == was_ok) by {
                    if was_ok {
                        assert forall|a: int, b: int| 0 <= a < b < n implies !(#[trigger] m[a] == '.' && #[trigger] m[b] == '.') by {
                            if b == k - p && m[b] == '.' {
                                assert(!was_dot);
                                assert(m[a] != '.');
                            }
                        }
                    }
                }
            }
            if '0' <= c <= '9' {
                assert('0' <= m[k - p] <= '9');
            }
        }
        k = k + 1;
    }
    digit && ok
}

fn number_end_at(t: &[char], p: usize) -> (e: usize)
    requires
        p <= t@.len(),
    ensures
        e == number_end(t@, p as int),
        p <= e <= t@.len(),
{
    let e = run_end_at(t, p, 0);
    proof {
        lemma_run_end(t@, p as int, 0);
    }
    if e < t.len() && (t[e] == 'e' || t[e] == 'E') {
        let s1 = e + 1;
        let s2 = if s1 < t.len() && (t[s1] == '+' || t[s1] == '-') { s1 + 1 } else { s1 };
        let d = run_end_at(t, s2, 2);
        proof {
            lemma_run_end(t@, s2 as int, 2);
        }
        if d == s2 {
            e
        } else {
            d
        }
    } else {
        e
    }
}

fn slice_chars(t: &[char], p: usize, e: usize) -> (v: Vec<char>)
    requires
        p <= e <= t@.len(),
    ensures
        v@ == t@.subrange(p as int, e as int),
{
    let mut v: Vec<char> = Vec::new();
    let mut k = p;
    while k < e
        invariant
            p <= k <= e <= t@.len(),
            v@ == t@.subrange(p as int, k as int),
        decreases e - k,
    {
        v.push(t[k]);
        k = k + 1;
    }
    v
}

fn same_chars(a: &[char], b: &str) -> (r: bool)
    ensures
        r == (a@ == b@),
{
    let c = chars_of(b);
    crate::text::compare_chars(a, c.as_slice()) == crate::text::Order::Equal
}

fn func_named(name: &[char], arity: usize) -> (f: Option<Func>)
    ensures
        f == func_of(name@, arity as nat),
{
    if arity != 1 {
        None
    } else if same_chars(name, "sin") {
        Some(Func::Sin)
    } else if same_chars(name, "cos") {
        Some(Func::Cos)
    } else if same_chars(name, "tan") {
        Some(Func::Tan)
    } else if same_chars(name, "sqrt") {
        Some(Func::Sqrt)
    } else if same_chars(name, "radians") {
        Some(Func::Radians)
    } else if same_chars(name, "degrees") {
        Some(Func::Degrees)
    } else if same_chars(name, "abs") {
        Some(Func::Abs)
    } else {
        None
    }
}

fn is_param(ps: &[Vec<char>], name: &[char]) -> (r: bool)
    ensures
        r == names_of(ps@).contains(name@),
{
    let mut i: usize = 0;
    while i < ps.len()
        invariant
            i <= ps@.len(),
            forall|j: int| 0 <= j < i ==> (#[trigger] ps@[j])@ != name@,
        decreases ps@.len() - i,
    {
        if crate::text::compare_chars(ps[i].as_slice(), name) == crate::text::Order::Equal {
            assert(names_of(ps@)[i as int] == name@);
            return true;
        }
        i = i + 1;
    }
    assert forall|j: int| 0 <= j < names_of(ps@).len() implies names_of(ps@)[j] != name@ by {
        assert(names_of(ps@)[j] == ps@[j]@);
    }
    false
}

fn read_number_at(t: &[char], p: usize) -> (r: Result<(Expr, usize), Stop>)
    requires
        p <= t@.len(),
    ensures
        reads(r, read_number(t@, p as int)),
{
    let e = number_end_at(t, p);
    let m = run_end_at(t, p, 0);
    proof {
        lemma_run_end(t@, p as int, 0);
    }
    if mantissa_ok(t, p, m) {
        let v = slice_chars(t, p, e);
        Ok((Expr::Number(string_of(v.as_slice())), e))
    } else {
        Err(Stop::BadNumber(p, e))
    }
}

/// The trees of `v`.
spec fn asts(v: Seq<Expr>) -> Seq<Ast> {
    v.map_values(|e: Expr| ast_of(e))
}

spec fn reads_args(r: Result<(Vec<Expr>, usize), Stop>, want: Result<(Seq<Ast>, int), Fault>) -> bool {
    match r {
        Ok((v, q)) => want == Ok::<(Seq<Ast>, int), Fault>((asts(v@), q as int)),
        Err(s) => want == Err::<(Seq<Ast>, int), Fault>(fault_of(s)),
    }
}

fn read_expr_at(t: &[char], ps: &[Vec<char>], p: usize) -> (r: Result<(Expr, usize), Stop>)
    ensures
        reads(r, read_expr(t@, names_of(ps@), p as int)),
    decreases t@.len() - p, 5nat,
{
    if p > t.len() {
        return Err(Stop::Unexpected(p));
    }
    match read_term_at(t, ps, p) {
        Err(f) => Err(f),
        Ok((a, q)) => if q <= p || q > t.len() {
            Err(Stop::Unexpected(q))
        } else {
            read_expr_rest_at(t, ps, a, q)
        },
    }
}

fn read_expr_rest_at(t: &[char], ps: &[Vec<char>], acc: Expr, p: usize) -> (r: Result<(Expr, usize), Stop>)
    ensures
        reads(r, read_expr_rest(t@, names_of(ps@), ast_of(acc), p as int)),
    decreases t@.len() - p, 6nat,
{
    if p > t.len() {
        return Err(Stop::Unexpected(p));
    }
    let s = skip_at(t, p);
    proof {
        lemma_skip(t@, p as int);
    }
    if at_char(t, p, '+') || at_char(t, p, '-') {
        match read_term_at(t, ps, s + 1) {
            Err(f) => Err(f),
            Ok((b, q)) => if q <= s + 1 || q > t.len() {
                Err(Stop::Unexpected(q))
            } else {
                let v = if t[s] == '+' {
                    Expr::Add(Box::new(acc), Box::new(b))
                } else {
                    Expr::Sub(Box::new(acc), Box::new(b))
                };
                read_expr_rest_at(t, ps, v, q)
            },
        }
    } else {
        Ok((acc, s))
    }
}

fn read_term_at(t: &[char], ps: &[Vec<char>], p: usize) -> (r: Result<(Expr, usize), Stop>)
    ensures
        reads(r, read_term(t@, names_of(ps@), p as int)),
    decreases t@.len() - p, 4nat,
{
    if p > t.len() {
        return Err(Stop::Unexpected(p));
    }
    match read_unary_at(t, ps, p) {
        Err(f) => Err(f),
        Ok((a, q)) => if q <= p || q > t.len() {
            Err(Stop::Unexpected(q))
        } else {
            read_term_rest_at(t, ps, a, q)
        },
    }
}

fn read_term_rest_at(t: &[char], ps: &[Vec<char>], acc: Expr, p: usize) -> (r: Result<(Expr, usize), Stop>)
    ensures
        reads(r, read_term_rest(t@, names_of(ps@), ast_of(acc), p as int)),
    decreases t@.len() - p, 6nat,
{
    if p > t.len() {
        return Err(Stop::Unexpected(p));
    }
    let s = skip_at(t, p);
    proof {
        lemma_skip(t@, p as int);
    }
    if at_char(t, p, '*') || at_char(t, p, '/') {
        match read_unary_at(t, ps, s + 1) {
            Err(f) => Err(f),
            Ok((b, q)) => if q <= s + 1 || q > t.len() {
                Err(Stop::Unexpected(q))
            } else {
                let v = if t[s] == '*' {
                    Expr::Mul(Box::new(acc), Box::new(b))
                } else {
                    Expr::Div(Box::new(acc), Box::new(b))
                };
                read_term_rest_at(t, ps, v, q)
            },
        }
    } else {
        Ok((acc, s))
    }
}

fn read_unary_at(t: &[char], ps: &[Vec<char>], p: usize) -> (r: Result<(Expr, usize), Stop>)
    ensures
        reads(r, read_unary(t@, names_of(ps@), p as int)),
    decreases t@.len() - p, 3nat,
{
    if p > t.len() {
        return Err(Stop::Unexpected(p));
    }
    let s = skip_at(t, p);
    proof {
        lemma_skip(t@, p as int);
    }
    if at_char(t, p, '-') {
        match read_unary_at(t, ps, s + 1) {
            Err(f) => Err(f),
            Ok((a, q)) => Ok((Expr::Neg(Box::new(a)), q)),
        }
    } else if at_char(t, p, '+') {
        read_unary_at(t, ps, s + 1)
    } else {
        read_power_at(t, ps, p)
    }
}

fn read_power_at(t: &[char], ps: &[Vec<char>], p: usize) -> (r: Result<(Expr, usize), Stop>)
    ensures
        reads(r, read_power(t@, names_of(ps@), p as int)),
    decreases t@.len() - p, 2nat,
{
    if p > t.len() {
        return Err(Stop::Unexpected(p));
    }
    match read_atom_at(t, ps, p) {
        Err(f) => Err(f),
        Ok((a, q)) => if q <= p || q > t.len() {
            Err(Stop::Unexpected(q))
        } else if at_char(t, q, '^') {
            proof {
                lemma_skip(t@, q as int);
            }
            let s = skip_at(t, q);
            match read_unary_at(t, ps, s + 1) {
                Err(f) => Err(f),
                Ok((b, r)) => Ok((Expr::Pow(Box::new(a), Box::new(b)), r)),
            }
        } else {
            Ok((a, skip_at(t, q)))
        },
    }
}

fn read_atom_at(t: &[char], ps: &[Vec<char>], p: usize) -> (r: Result<(Expr, usize), Stop>)
    ensures
        reads(r, read_atom(t@, names_of(ps@), p as int)),
    decreases t@.len() - p, 1nat,
{
    if p > t.len() {
        return Err(Stop::Unexpected(p));
    }
    let s = skip_at(t, p);
    proof {
        lemma_skip(t@, p as int);
    }
    if at_char(t, p, '(') {
        match read_expr_at(t, ps, s + 1) {
            Err(f) => Err(f),
            Ok((a, q)) => {
                if q > t.len() {
                    return Err(Stop::Unexpected(q));
                }
                if at_char(t, q, ')') {
                    proof {
                        lemma_skip(t@, q as int);
                    }
                    Ok((a, skip_at(t, q) + 1))
                } else {
                    Err(Stop::Unexpected(skip_at(t, q)))
                }
            },
        }
    } else if s < t.len() && (('0' <= t[s] && t[s] <= '9') || t[s] == '.') {
        read_number_at(t, s)
    } else if s < t.len() && (('a' <= t[s] && t[s] <= 'z') || ('A' <= t[s] && t[s] <= 'Z') || t[s] == '_') {
        read_name_at(t, ps, s)
    } else {
        Err(Stop::Unexpected(s))
    }
}

fn read_name_at(t: &[char], ps: &[Vec<char>], p: usize) -> (r: Result<(Expr, usize), Stop>)
    ensures
        reads(r, read_name(t@, names_of(ps@), p as int)),
    decreases t@.len() - p, 0nat,
{
    if p >= t.len() {
        return Err(Stop::Unexpected(p));
    }
    let e = run_end_at(t, p, 1);
    proof {
        lemma_run_end(t@, p as int, 1);
    }
    let name = slice_chars(t, p, e);
    if at_char(t, e, '(') {
        proof {
            lemma_skip(t@, e as int);
        }
        if e <= p {
            Err(Stop::Unexpected(e))
        } else {
            let s = skip_at(t, e);
            match read_call_args_at(t, ps, s + 1) {
                Err(f) => Err(f),
                Ok((mut args, q)) => match func_named(name.as_slice(), args.len()) {
                    Some(f) => {
                        let a = args.remove(0);
                        Ok((Expr::Call(f, Box::new(a)), q))
                    },
                    None => Err(Stop::UnknownFunction(name, args.len())),
                },
            }
        }
    } else if is_param(ps, name.as_slice()) {
        Ok((Expr::Param(string_of(name.as_slice())), skip_at(t, e)))
    } else if same_chars(name.as_slice(), "pi") {
        Ok((Expr::Pi, skip_at(t, e)))
    } else {
        Err(Stop::UnknownName(name))
    }
}

fn read_call_args_at(t: &[char], ps: &[Vec<char>], p: usize) -> (r: Result<(Vec<Expr>, usize), Stop>)
    ensures
        reads_args(r, read_call_args(t@, names_of(ps@), p as int)),
    decreases t@.len() - p, 8nat,
{
    if p > t.len() {
        return Err(Stop::Unexpected(p));
    }
    if at_char(t, p, ')') {
        proof {
            lemma_skip(t@, p as int);
        }
        let v: Vec<Expr> = Vec::new();
        assert(asts(v@) =~= Seq::<Ast>::empty());
        Ok((v, skip_at(t, p) + 1))
    } else {
        let v: Vec<Expr> = Vec::new();
        assert(asts(v@) =~= Seq::<Ast>::empty());
        read_args_at(t, ps, v, p)
    }
}

fn read_args_at(t: &[char], ps: &[Vec<char>], acc: Vec<Expr>, p: usize) -> (r: Result<(Vec<Expr>, usize), Stop>)
    ensures
        reads_args(r, read_args(t@, names_of(ps@), asts(acc@), p as int)),
    decreases t@.len() - p, 7nat,
{
    if p > t.len() {
        return Err(Stop::Unexpected(p));
    }
    match read_expr_at(t, ps, p) {
        Err(f) => Err(f),
        Ok((a, q)) => if q <= p || q > t.len() {
            Err(Stop::Unexpected(q))
        } else {
            proof {
                lemma_skip(t@, q as int);
            }
            let mut acc = acc;
            let ghost before = asts(acc@);
            let ghost av = ast_of(a);
            if at_char(t, q, ',') {
                acc.push(a);
                assert(asts(acc@) =~= before.push(av));
                read_args_at(t, ps, acc, skip_at(t, q) + 1)
            } else if at_char(t, q, ')') {
                acc.push(a);
                assert(asts(acc@) =~= before.push(av));
                Ok((acc, skip_at(t, q) + 1))
            } else {
                Err(Stop::Unexpected(skip_at(t, q)))
            }
        },
    }
}

/// Why an expression did not read.
#[derive(Debug, Clone, PartialEq, Eq)]
pub enum ExprError {
    /// A character that is not part of the grammar, or a number that is
    /// no number.
    Unexpected {
        /// The text.
        text: String,
        /// Byte offset.
        at: usize,
        /// What was there.
        found: String,
    },
    /// A name that is neither a parameter nor a constant.
    UnknownName {
        /// The text.
        text: String,
        /// The name.
        name: String,
    },
    /// A function that is not in the table, or called with the wrong arity.
    UnknownFunction {
        /// The text.
        text: String,
        /// The name.
        name: String,
        /// How many arguments it was given.
        arity: usize,
    },
}

/// The byte offset of character `p` of `t` in its UTF-8.
pub open spec fn byte_offset(t: Seq<char>, p: int) -> nat {
    encode_utf8(t.subrange(0, p)).len()
}

/// Whether `r` is what reading `t` over the parameters `ps` gives: the
/// tree, or the first fault from the left, as an error over `t`.
pub open spec fn parsed(r: Result<Expr, ExprError>, t: Seq<char>, ps: Seq<Seq<char>>) -> bool {
    match read_all(t, ps) {
        Ok(a) => r matches Ok(e) && ast_of(e) == a,
        Err(Fault::Unexpected(p)) => r matches Err(ExprError::Unexpected { text, at, found }) && text@ == t
            && at == byte_offset(t, p) && found@ == if p < t.len() {
            seq![t[p]]
        } else {
            "end"@
        },
        Err(Fault::BadNumber(p, e)) => r matches Err(ExprError::Unexpected { text, at, found }) && text@ == t
            && at == byte_offset(t, p) && found@ == t.subrange(p, e),
        Err(Fault::UnknownName(n)) => r matches Err(ExprError::UnknownName { text, name }) && text@ == t
            && name@ == n,
        Err(Fault::UnknownFunction(n, k)) => r matches Err(ExprError::UnknownFunction { text, name, arity })
            && text@ == t && name@ == n && arity == k,
    }
}

/// UTF-8 of two texts is the UTF-8 of each, one after the other.
pub proof fn lemma_encode_concat(a: Seq<char>, b: Seq<char>)
    ensures
        encode_utf8(a + b) == encode_utf8(a) + encode_utf8(b),
    decreases a.len(),
{
    if a.len() == 0 {
        assert(a + b =~= b);
        assert(encode_utf8(a) =~= Seq::<u8>::empty());
        assert(encode_utf8(a) + encode_utf8(b) =~= encode_utf8(b));
    } else {
        assert((a + b)[0] == a[0]);
        assert((a + b).drop_first() =~= a.drop_first() + b);
        lemma_encode_concat(a.drop_first(), b);
        assert(encode_utf8(a + b) =~= encode_utf8(a) + encode_utf8(b));
    }
}

fn utf8_width(c: char) -> (n: usize)
    ensures
        n == encode_scalar(c as u32).len(),
{
    proof {
        vstd::utf8::char_is_scalar(c);
    }
    let v = c as u32;
    if v <= 0x7f {
        1
    } else if v <= 0x7ff {
        2
    } else if v <= 0xffff {
        3
    } else {
        4
    }
}

fn byte_offset_at(t: &[char], p: usize) -> (n: usize)
    requires
        p <= t@.len(),
        encode_utf8(t@).len() <= usize::MAX,
    ensures
        n == byte_offset(t@, p as int),
{
    let mut n: usize = 0;
    let mut k: usize = 0;
    assert(encode_utf8(t@.subrange(0, 0)) =~= Seq::<u8>::empty()) by {
        assert(t@.subrange(0, 0) =~= Seq::<char>::empty());
    }
    while k < p
        invariant
            k <= p <= t@.len(),
            encode_utf8(t@).len() <= usize::MAX,
            n == encode_utf8(t@.subrange(0, k as int)).len(),
        decreases p - k,
    {
        let c = t[k];
        proof {
            let pre = t@.subrange(0, k as int);
            lemma_encode_concat(pre, seq![c]);
            assert(t@.subrange(0, k + 1) =~= pre + seq![c]);
            assert(seq![c].drop_first() =~= Seq::<char>::empty());
            assert(seq![c][0] == c);
            assert(encode_utf8(seq![c].drop_first()) =~= Seq::<u8>::empty());
            assert(encode_utf8(seq![c]) == encode_scalar(c as u32) + encode_utf8(seq![c].drop_first()));
            assert(encode_utf8(seq![c]) =~= encode_scalar(c as u32));
            lemma_encode_concat(t@.subrange(0, k + 1), t@.skip(k + 1));
            assert(t@.subrange(0, k + 1) + t@.skip(k + 1) =~= t@);
        }
        n = n + utf8_width(c);
        k = k + 1;
    }
    n
}

/// Reads `text` over the parameters named `params`: `+ - * / ^`, unary
/// signs, parentheses, decimal numbers, names from `params` and `pi`,
/// and the functions `sin cos tan sqrt radians degrees abs` of one
/// argument. The tree, or the first thing wrong from the left: a
/// character not in the grammar or a number that is none (with its byte
/// offset and what was there), a name that is neither a parameter nor
/// `pi`, a function not in the table with the arity it was given.
pub fn parse(text: &str, params: &[String]) -> (r: Result<Expr, ExprError>)
    requires
        encode_utf8(text@).len() <= usize::MAX,
    ensures
        parsed(r, text@, params@.map_values(|s: String| s@)),
{
    let t = chars_of(text);
    let mut ps: Vec<Vec<char>> = Vec::new();
    let mut i: usize = 0;
    while i < params.len()
        invariant
            i <= params@.len(),
            names_of(ps@) == params@.map_values(|s: String| s@).take(i as int),
        decreases params@.len() - i,
    {
        let v = chars_of(params[i].as_str());
        let ghost old_ps = ps@;
        ps.push(v);
        assert(names_of(ps@) =~= names_of(old_ps).push(params@[i as int]@));
        assert(params@.map_values(|s: String| s@).take(i + 1) =~= params@.map_values(|s: String| s@).take(i as int).push(params@[i as int]@));
        i = i + 1;
    }
    assert(params@.map_values(|s: String| s@).take(i as int) =~= params@.map_values(|s: String| s@));
    let whole = string_of(t.as_slice());
    proof {
        lemma_expr_in(t@, names_of(ps@), 0);
        lemma_skip(t@, 0);
    }
    let stop = match read_expr_at(t.as_slice(), ps.as_slice(), 0) {
        Err(f) => f,
        Ok((a, q)) => {
            if q > t.len() {
                Stop::Unexpected(q)
            } else {
                let s = skip_at(t.as_slice(), q);
                proof {
                    lemma_skip(t@, q as int);
                }
                if s != t.len() {
                    Stop::Unexpected(s)
                } else {
                    return Ok(a);
                }
            }
        },
    };
    match stop {
        Stop::Unexpected(p) => {
            let found = if p < t.len() {
                let mut v: Vec<char> = Vec::new();
                v.push(t[p]);
                string_of(v.as_slice())
            } else {
                string_of(chars_of("end").as_slice())
            };
            Err(ExprError::Unexpected { text: whole, at: byte_offset_at(t.as_slice(), p), found })
        },
        Stop::BadNumber(p, e) => {
            let found = slice_chars(t.as_slice(), p, e);
            Err(ExprError::Unexpected { text: whole, at: byte_offset_at(t.as_slice(), p), found: string_of(found.as_slice()) })
        },
        Stop::UnknownName(n) => Err(ExprError::UnknownName { text: whole, name: string_of(n.as_slice()) }),
        Stop::UnknownFunction(n, k) => Err(ExprError::UnknownFunction { text: whole, name: string_of(n.as_slice()), arity: k }),
    }
}

/// Whether what a read gave stays in a text of `n` characters.
pub open spec fn stays_in(r: Read, n: int) -> bool {
    match r {
        Ok((_, q)) => 0 <= q <= n,
        Err(Fault::Unexpected(q)) => 0 <= q <= n,
        Err(Fault::BadNumber(a, b)) => 0 <= a <= b <= n,
        _ => true,
    }
}

/// Whether what reading arguments gave stays in a text of `n` characters.
pub open spec fn args_stay_in(r: Result<(Seq<Ast>, int), Fault>, n: int) -> bool {
    match r {
        Ok((_, q)) => 0 <= q <= n,
        Err(Fault::Unexpected(q)) => 0 <= q <= n,
        Err(Fault::BadNumber(a, b)) => 0 <= a <= b <= n,
        _ => true,
    }
}

proof fn lemma_expr_in(t: Seq<char>, ps: Seq<Seq<char>>, p: int)
    requires
        0 <= p <= t.len(),
    ensures
        stays_in(read_expr(t, ps, p), t.len() as int),
    decreases t.len() - p, 5nat,
{
    lemma_term_in(t, ps, p);
    match read_term(t, ps, p) {
        Ok((a, q)) => if q > p && q <= t.len() {
            lemma_expr_rest_in(t, ps, a, q);
        },
        Err(_) => {},
    }
}

proof fn lemma_expr_rest_in(t: Seq<char>, ps: Seq<Seq<char>>, acc: Ast, p: int)
    requires
        0 <= p <= t.len(),
    ensures
        stays_in(read_expr_rest(t, ps, acc, p), t.len() as int),
    decreases t.len() - p, 6nat,
{
    lemma_skip(t, p);
    let s = skip(t, p);
    if at(t, p, '+') || at(t, p, '-') {
        lemma_term_in(t, ps, s + 1);
        match read_term(t, ps, s + 1) {
            Ok((b, q)) => if q > s + 1 && q <= t.len() {
                let v = if t[s] == '+' {
                    Ast::Add(Box::new(acc), Box::new(b))
                } else {
                    Ast::Sub(Box::new(acc), Box::new(b))
                };
                lemma_expr_rest_in(t, ps, v, q);
            },
            Err(_) => {},
        }
    }
}

proof fn lemma_term_in(t: Seq<char>, ps: Seq<Seq<char>>, p: int)
    requires
        0 <= p <= t.len(),
    ensures
        stays_in(read_term(t, ps, p), t.len() as int),
    decreases t.len() - p, 4nat,
{
    lemma_unary_in(t, ps, p);
    match read_unary(t, ps, p) {
        Ok((a, q)) => if q > p && q <= t.len() {
            lemma_term_rest_in(t, ps, a, q);
        },
        Err(_) => {},
    }
}

proof fn lemma_term_rest_in(t: Seq<char>, ps: Seq<Seq<char>>, acc: Ast, p: int)
    requires
        0 <= p <= t.len(),
    ensures
        stays_in(read_term_rest(t, ps, acc, p), t.len() as int),
    decreases t.len() - p, 6nat,
{
    lemma_skip(t, p);
    let s = skip(t, p);
    if at(t, p, '*') || at(t, p, '/') {
        lemma_unary_in(t, ps, s + 1);
        match read_unary(t, ps, s + 1) {
            Ok((b, q)) => if q > s + 1 && q <= t.len() {
                let v = if t[s] == '*' {
                    Ast::Mul(Box::new(acc), Box::new(b))
                } else {
                    Ast::Div(Box::new(acc), Box::new(b))
                };
                lemma_term_rest_in(t, ps, v, q);
            },
            Err(_) => {},
        }
    }
}

proof fn lemma_unary_in(t: Seq<char>, ps: Seq<Seq<char>>, p: int)
    requires
        0 <= p <= t.len(),
    ensures
        stays_in(read_unary(t, ps, p), t.len() as int),
    decreases t.len() - p, 3nat,
{
    lemma_skip(t, p);
    let s = skip(t, p);
    if at(t, p, '-') || at(t, p, '+') {
        lemma_unary_in(t, ps, s + 1);
    } else {
        lemma_power_in(t, ps, p);
    }
}

proof fn lemma_power_in(t: Seq<char>, ps: Seq<Seq<char>>, p: int)
    requires
        0 <= p <= t.len(),
    ensures
        stays_in(read_power(t, ps, p), t.len() as int),
    decreases t.len() - p, 2nat,
{
    lemma_atom_in(t, ps, p);
    match read_atom(t, ps, p) {
        Ok((a, q)) => if q > p && q <= t.len() {
            lemma_skip(t, q);
            if at(t, q, '^') {
                lemma_unary_in(t, ps, skip(t, q) + 1);
            }
        },
        Err(_) => {},
    }
}

proof fn lemma_atom_in(t: Seq<char>, ps: Seq<Seq<char>>, p: int)
    requires
        0 <= p <= t.len(),
    ensures
        stays_in(read_atom(t, ps, p), t.len() as int),
    decreases t.len() - p, 1nat,
{
    lemma_skip(t, p);
    let s = skip(t, p);
    if at(t, p, '(') {
        lemma_expr_in(t, ps, s + 1);
        match read_expr(t, ps, s + 1) {
            Ok((a, q)) => {
                lemma_skip(t, q);
            },
            Err(_) => {},
        }
    } else if s < t.len() && number_char(t[s]) {
        lemma_run_end(t, s, 0);
        let e = run_end(t, s, 0);
        if 0 <= e < t.len() && (t[e] == 'e' || t[e] == 'E') {
            let s1 = e + 1;
            let s2 = if s1 < t.len() && (t[s1] == '+' || t[s1] == '-') { s1 + 1 } else { s1 };
            lemma_run_end(t, s2, 2);
        }
    } else if s < t.len() && (('a' <= t[s] <= 'z') || ('A' <= t[s] <= 'Z') || t[s] == '_') {
        lemma_name_in(t, ps, s);
    }
}

proof fn lemma_name_in(t: Seq<char>, ps: Seq<Seq<char>>, p: int)
    requires
        0 <= p <= t.len(),
    ensures
        stays_in(read_name(t, ps, p), t.len() as int),
    decreases t.len() - p, 0nat,
{
    if p < t.len() {
        lemma_run_end(t, p, 1);
        let e = run_end(t, p, 1);
        lemma_skip(t, e);
        if at(t, e, '(') && e > p {
            lemma_call_args_in(t, ps, skip(t, e) + 1);
        }
    }
}

proof fn lemma_call_args_in(t: Seq<char>, ps: Seq<Seq<char>>, p: int)
    requires
        0 <= p <= t.len(),
    ensures
        args_stay_in(read_call_args(t, ps, p), t.len() as int),
    decreases t.len() - p, 8nat,
{
    lemma_skip(t, p);
    if !at(t, p, ')') {
        lemma_args_in(t, ps, Seq::empty(), p);
    }
}

proof fn lemma_args_in(t: Seq<char>, ps: Seq<Seq<char>>, acc: Seq<Ast>, p: int)
    requires
        0 <= p <= t.len(),
    ensures
        args_stay_in(read_args(t, ps, acc, p), t.len() as int),
    decreases t.len() - p, 7nat,
{
    lemma_expr_in(t, ps, p);
    match read_expr(t, ps, p) {
        Ok((a, q)) => if q > p && q <= t.len() {
            lemma_skip(t, q);
            if at(t, q, ',') {
                lemma_args_in(t, ps, acc.push(a), skip(t, q) + 1);
            }
        },
        Err(_) => {},
    }
}

/// What an expression error says.
pub open spec fn expr_error_text(e: ExprError) -> Seq<char> {
    match e {
        ExprError::Unexpected { text, at, found } => "unexpected "@ + crate::geometry::debug_quoted(found@)
            + " at "@ + crate::text::decimal(at as nat) + " in "@ + crate::geometry::debug_quoted(text@),
        ExprError::UnknownName { text, name } => "unknown name "@ + crate::geometry::debug_quoted(name@)
            + " in "@ + crate::geometry::debug_quoted(text@),
        ExprError::UnknownFunction { text, name, arity } => "unknown function "@
            + crate::geometry::debug_quoted(name@) + "/"@ + crate::text::decimal(arity as nat) + " in "@
            + crate::geometry::debug_quoted(text@),
    }
}

impl ExprError {
    /// What the error says: `unexpected "x" at 3 in "1 + x"`, …
    pub fn message(&self) -> (s: String)
        ensures
            s@ == expr_error_text(*self),
    {
        let mut out: Vec<char> = Vec::new();
        match self {
            ExprError::Unexpected { text, at, found } => {
                crate::text::push_str(&mut out, "unexpected ");
                crate::text::push_str(&mut out, crate::geometry::quoted(found.as_str()).as_str());
                crate::text::push_str(&mut out, " at ");
                crate::text::push_decimal(&mut out, *at as u64);
                crate::text::push_str(&mut out, " in ");
                crate::text::push_str(&mut out, crate::geometry::quoted(text.as_str()).as_str());
            },
            ExprError::UnknownName { text, name } => {
                crate::text::push_str(&mut out, "unknown name ");
                crate::text::push_str(&mut out, crate::geometry::quoted(name.as_str()).as_str());
                crate::text::push_str(&mut out, " in ");
                crate::text::push_str(&mut out, crate::geometry::quoted(text.as_str()).as_str());
            },
            ExprError::UnknownFunction { text, name, arity } => {
                crate::text::push_str(&mut out, "unknown function ");
                crate::text::push_str(&mut out, crate::geometry::quoted(name.as_str()).as_str());
                crate::text::push_str(&mut out, "/");
                crate::text::push_decimal(&mut out, *arity as u64);
                crate::text::push_str(&mut out, " in ");
                crate::text::push_str(&mut out, crate::geometry::quoted(text.as_str()).as_str());
            },
        }
        string_of(out.as_slice())
    }
}

} // verus!
