use vstd::prelude::*;
use crate::ast::{BinOp, Expr, SExpr, view_all};

verus! {

// The grammar, as a parsing-expression grammar: alternatives are tried in
// order and the first that matches is taken. Every rule starts at a
// position where whitespace has already been skipped, and on success
// returns its tree and the position after the whitespace that follows it.
// The conditions `i < j <= s.len()` in front of recursive uses always hold
// (every rule consumes input); they state the termination argument.
pub open spec fn is_space(c: char) -> bool {
    c == ' ' || c == '\t' || c == '\n' || c == '\r'
}

pub open spec fn is_letter(c: char) -> bool {
    ('a' <= c && c <= 'z') || ('A' <= c && c <= 'Z')
}

pub open spec fn is_digit(c: char) -> bool {
    '0' <= c && c <= '9'
}

pub open spec fn is_word_char(c: char) -> bool {
    is_letter(c) || is_digit(c) || c == '_'
}

/// The first position at or after `i` that holds no whitespace.
pub open spec fn skip_space(s: Seq<char>, i: int) -> int
    decreases s.len() - i,
{
    if 0 <= i < s.len() && is_space(s[i]) {
        skip_space(s, i + 1)
    } else {
        i
    }
}

/// The end of the run of identifier characters that starts at `i`.
pub open spec fn word_end(s: Seq<char>, i: int) -> int
    decreases s.len() - i,
{
    if 0 <= i < s.len() && is_word_char(s[i]) {
        word_end(s, i + 1)
    } else {
        i
    }
}

/// The end of the run of digits that starts at `i`.
pub open spec fn digits_end(s: Seq<char>, i: int) -> int
    decreases s.len() - i,
{
    if 0 <= i < s.len() && is_digit(s[i]) {
        digits_end(s, i + 1)
    } else {
        i
    }
}

/// The single-character token `c`.
pub open spec fn sp_token(s: Seq<char>, i: int, c: char) -> Option<int> {
    if 0 <= i < s.len() && s[i] == c {
        Some(skip_space(s, i + 1))
    } else {
        None
    }
}

/// `ident := letter (letter | digit | "_")*`
pub open spec fn sp_ident(s: Seq<char>, i: int) -> Option<(Seq<char>, int)> {
    if 0 <= i < s.len() && is_letter(s[i]) {
        let e = word_end(s, i + 1);
        Some((s.subrange(i, e), skip_space(s, e)))
    } else {
        None
    }
}

/// `number := digit+`
pub open spec fn sp_number(s: Seq<char>, i: int) -> Option<(Seq<char>, int)> {
    if 0 <= i < s.len() && is_digit(s[i]) {
        let e = digits_end(s, i + 1);
        Some((s.subrange(i, e), skip_space(s, e)))
    } else {
        None
    }
}

/// A keyword: an identifier spelled `kw`.
pub open spec fn sp_keyword(s: Seq<char>, i: int, kw: Seq<char>) -> Option<int> {
    match sp_ident(s, i) {
        Some((w, j)) => if w == kw {
            Some(j)
        } else {
            None
        },
        None => None,
    }
}

/// `ident*`
pub open spec fn sp_params(s: Seq<char>, i: int) -> (Seq<Seq<char>>, int)
    decreases s.len() - i,
{
    match sp_ident(s, i) {
        Some((n, j)) => if i < j <= s.len() {
            let (rest, k) = sp_params(s, j);
            (seq![n] + rest, k)
        } else {
            (Seq::empty(), i)
        },
        None => (Seq::empty(), i),
    }
}

/// `"+" | "-"` or `"*" | "/"`: the operator at `i` among the two given.
pub open spec fn sp_operator(s: Seq<char>, i: int, c1: char, o1: BinOp, c2: char, o2: BinOp) -> Option<
    (BinOp, int),
> {
    match sp_token(s, i, c1) {
        Some(k) => Some((o1, k)),
        None => match sp_token(s, i, c2) {
            Some(k) => Some((o2, k)),
            None => None,
        },
    }
}

/// `expr := sum`
pub open spec fn sp_expr(s: Seq<char>, i: int) -> Option<(SExpr, int)>
    decreases s.len() - i, 6nat,
{
    sp_sum(s, i)
}

/// `sum := product (("+" | "-") product)*`, folded to the left.
pub open spec fn sp_sum(s: Seq<char>, i: int) -> Option<(SExpr, int)>
    decreases s.len() - i, 5nat,
{
    match sp_product(s, i) {
        Some((l, j)) => if i < j <= s.len() {
            sp_sum_tail(s, l, j)
        } else {
            None
        },
        None => None,
    }
}

/// The repeated part of `sum`, with `acc` the tree so far. An operator
/// without an operand after it is not consumed.
pub open spec fn sp_sum_tail(s: Seq<char>, acc: SExpr, i: int) -> Option<(SExpr, int)>
    decreases s.len() - i, 5nat,
{
    match sp_operator(s, i, '+', BinOp::Add, '-', BinOp::Sub) {
        Some((op, k)) => if i < k <= s.len() {
            match sp_product(s, k) {
                Some((r, m)) => if k < m <= s.len() {
                    sp_sum_tail(s, SExpr::Binary(op, Box::new(acc), Box::new(r)), m)
                } else {
                    Some((acc, i))
                },
                None => Some((acc, i)),
            }
        } else {
            Some((acc, i))
        },
        None => Some((acc, i)),
    }
}

/// `product := unary (("*" | "/") unary)*`, folded to the left.
pub open spec fn sp_product(s: Seq<char>, i: int) -> Option<(SExpr, int)>
    decreases s.len() - i, 4nat,
{
    match sp_unary(s, i) {
        Some((l, j)) => if i < j <= s.len() {
            sp_product_tail(s, l, j)
        } else {
            None
        },
        None => None,
    }
}

/// The repeated part of `product`.
pub open spec fn sp_product_tail(s: Seq<char>, acc: SExpr, i: int) -> Option<(SExpr, int)>
    decreases s.len() - i, 4nat,
{
    match sp_operator(s, i, '*', BinOp::Mul, '/', BinOp::Div) {
        Some((op, k)) => if i < k <= s.len() {
            match sp_unary(s, k) {
                Some((r, m)) => if k < m <= s.len() {
                    sp_product_tail(s, SExpr::Binary(op, Box::new(acc), Box::new(r)), m)
                } else {
                    Some((acc, i))
                },
                None => Some((acc, i)),
            }
        } else {
            Some((acc, i))
        },
        None => Some((acc, i)),
    }
}

/// `unary := "-"* atom`, each minus applying to what follows it.
pub open spec fn sp_unary(s: Seq<char>, i: int) -> Option<(SExpr, int)>
    decreases s.len() - i, 3nat,
{
    match sp_token(s, i, '-') {
        Some(k) => if i < k <= s.len() {
            match sp_unary(s, k) {
                Some((a, m)) => Some((SExpr::Neg(Box::new(a)), m)),
                None => None,
            }
        } else {
            None
        },
        None => sp_atom(s, i),
    }
}

/// `atom := number | "(" expr ")" | call | ident`
pub open spec fn sp_atom(s: Seq<char>, i: int) -> Option<(SExpr, int)>
    decreases s.len() - i, 2nat,
{
    match sp_number(s, i) {
        Some((d, j)) => Some((SExpr::Num(d), j)),
        None => match sp_paren(s, i) {
            Some(r) => Some(r),
            None => match sp_call(s, i) {
                Some(r) => Some(r),
                None => match sp_ident(s, i) {
                    Some((n, j)) => Some((SExpr::Var(n), j)),
                    None => None,
                },
            },
        },
    }
}

/// `"(" expr ")"`
pub open spec fn sp_paren(s: Seq<char>, i: int) -> Option<(SExpr, int)>
    decreases s.len() - i, 1nat,
{
    match sp_token(s, i, '(') {
        Some(k) => if i < k <= s.len() {
            match sp_expr(s, k) {
                Some((e, j)) => match sp_token(s, j, ')') {
                    Some(m) => Some((e, m)),
                    None => None,
                },
                None => None,
            }
        } else {
            None
        },
        None => None,
    }
}

/// `call := ident "(" (expr ("," expr)* ","?)? ")"`
pub open spec fn sp_call(s: Seq<char>, i: int) -> Option<(SExpr, int)>
    decreases s.len() - i, 1nat,
{
    match sp_ident(s, i) {
        Some((n, j)) => match sp_token(s, j, '(') {
            Some(k) => if i < k <= s.len() {
                match sp_args(s, k) {
                    Some((args, m)) => Some((SExpr::Call(n, args), m)),
                    None => None,
                }
            } else {
                None
            },
            None => None,
        },
        None => None,
    }
}

/// The argument list after `(`, up to and including `)`.
pub open spec fn sp_args(s: Seq<char>, i: int) -> Option<(Seq<SExpr>, int)>
    decreases s.len() - i, 7nat,
{
    match sp_token(s, i, ')') {
        Some(m) => Some((Seq::empty(), m)),
        None => match sp_expr(s, i) {
            Some((e, j)) => if i < j <= s.len() {
                sp_args_rest(s, seq![e], j)
            } else {
                None
            },
            None => None,
        },
    }
}

/// The arguments after the first, with `acc` those parsed so far.
pub open spec fn sp_args_rest(s: Seq<char>, acc: Seq<SExpr>, i: int) -> Option<(Seq<SExpr>, int)>
    decreases s.len() - i, 7nat,
{
    match sp_token(s, i, ',') {
        Some(k) => match sp_token(s, k, ')') {
            Some(m) => Some((acc, m)),
            None => if i < k <= s.len() {
                match sp_expr(s, k) {
                    Some((e, j)) => if k < j <= s.len() {
                        sp_args_rest(s, acc.push(e), j)
                    } else {
                        None
                    },
                    None => None,
                }
            } else {
                None
            },
        },
        None => match sp_token(s, i, ')') {
            Some(m) => Some((acc, m)),
            None => None,
        },
    }
}

/// `decl := let_decl | fn_decl | expr`
pub open spec fn sp_decl(s: Seq<char>, i: int) -> Option<(SExpr, int)>
    decreases s.len() - i, 9nat,
{
    match sp_let(s, i) {
        Some(r) => Some(r),
        None => match sp_fn(s, i) {
            Some(r) => Some(r),
            None => sp_expr(s, i),
        },
    }
}

/// `let_decl := "let" ident "=" expr ";" decl`
pub open spec fn sp_let(s: Seq<char>, i: int) -> Option<(SExpr, int)>
    decreases s.len() - i, 8nat,
{
    match sp_keyword(s, i, seq!['l', 'e', 't']) {
        Some(j) => match sp_ident(s, j) {
            Some((name, k)) => match sp_token(s, k, '=') {
                Some(m) => if i < m <= s.len() {
                    match sp_expr(s, m) {
                        Some((rhs, p)) => match sp_token(s, p, ';') {
                            Some(q) => if i < q <= s.len() {
                                match sp_decl(s, q) {
                                    Some((then, r)) => Some(
                                        (
                                            SExpr::Let {
                                                name,
                                                rhs: Box::new(rhs),
                                                then: Box::new(then),
                                            },
                                            r,
                                        ),
                                    ),
                                    None => None,
                                }
                            } else {
                                None
                            },
                            None => None,
                        },
                        None => None,
                    }
                } else {
                    None
                },
                None => None,
            },
            None => None,
        },
        None => None,
    }
}

/// `fn_decl := "fn" ident ident* "=" expr ";" decl`
pub open spec fn sp_fn(s: Seq<char>, i: int) -> Option<(SExpr, int)>
    decreases s.len() - i, 8nat,
{
    match sp_keyword(s, i, seq!['f', 'n']) {
        Some(j) => match sp_ident(s, j) {
            Some((name, k)) => {
                let (params, m) = sp_params(s, k);
                match sp_token(s, m, '=') {
                    Some(p) => if i < p <= s.len() {
                        match sp_expr(s, p) {
                            Some((body, q)) => match sp_token(s, q, ';') {
                                Some(t) => if i < t <= s.len() {
                                    match sp_decl(s, t) {
                                        Some((then, r)) => Some(
                                            (
                                                SExpr::Fn {
                                                    name,
                                                    params,
                                                    body: Box::new(body),
                                                    then: Box::new(then),
                                                },
                                                r,
                                            ),
                                        ),
                                        None => None,
                                    }
                                } else {
                                    None
                                },
                                None => None,
                            },
                            None => None,
                        }
                    } else {
                        None
                    },
                    None => None,
                }
            },
            None => None,
        },
        None => None,
    }
}

/// `program := decl`, with leading whitespace, consuming the whole input.
pub open spec fn sp_program(s: Seq<char>) -> Option<SExpr> {
    match sp_decl(s, skip_space(s, 0)) {
        Some((e, j)) => if j == s.len() {
            Some(e)
        } else {
            None
        },
        None => None,
    }
}


/// A syntax error: what was found, and where, as character offsets.
#[derive(Debug)]
pub struct SyntaxError {
    pub message: String,
    pub start: usize,
    pub end: usize,
}

/// Relies on `str::chars` collected into a `Vec`: the characters of `src`,
/// in order.
#[verifier::external_body]
fn chars_of(src: &str) -> (r: Vec<char>)
    ensures
        r@ == src@,
{
    src.chars().collect()
}

/// Relies on `FromIterator<char>` for `String`: the string holds the
/// characters `s[from..to]`, in order.
#[verifier::external_body]
fn string_of(s: &Vec<char>, from: usize, to: usize) -> (r: String)
    requires
        from <= to <= s@.len(),
    ensures
        r@ == s@.subrange(from as int, to as int),
{
    s[from..to].iter().collect()
}

fn space(c: char) -> (r: bool)
    ensures
        r == is_space(c),
{
    c == ' ' || c == '\t' || c == '\n' || c == '\r'
}

fn letter(c: char) -> (r: bool)
    ensures
        r == is_letter(c),
{
    ('a' <= c && c <= 'z') || ('A' <= c && c <= 'Z')
}

fn digit(c: char) -> (r: bool)
    ensures
        r == is_digit(c),
{
    '0' <= c && c <= '9'
}

fn word_char(c: char) -> (r: bool)
    ensures
        r == is_word_char(c),
{
    letter(c) || digit(c) || c == '_'
}

/// Records `i` as the furthest position at which a token was missing.
fn note_failure(far: &mut usize, i: usize)
    ensures
        *final(far) == if i > *old(far) {
            i
        } else {
            *old(far)
        },
{
    if i > *far {
        *far = i;
    }
}

fn skip(s: &Vec<char>, i: usize) -> (r: usize)
    requires
        i <= s@.len(),
    ensures
        r as int == skip_space(s@, i as int),
        i <= r <= s@.len(),
{
    let mut j = i;
    while j < s.len() && space(s[j])
        invariant
            i <= j <= s@.len(),
            skip_space(s@, i as int) == skip_space(s@, j as int),
        decreases s@.len() - j,
    {
        j = j + 1;
    }
    j
}

fn scan_word(s: &Vec<char>, i: usize) -> (r: usize)
    requires
        i <= s@.len(),
    ensures
        r as int == word_end(s@, i as int),
        i <= r <= s@.len(),
{
    let mut j = i;
    while j < s.len() && word_char(s[j])
        invariant
            i <= j <= s@.len(),
            word_end(s@, i as int) == word_end(s@, j as int),
        decreases s@.len() - j,
    {
        j = j + 1;
    }
    j
}

fn scan_digits(s: &Vec<char>, i: usize) -> (r: usize)
    requires
        i <= s@.len(),
    ensures
        r as int == digits_end(s@, i as int),
        i <= r <= s@.len(),
{
    let mut j = i;
    while j < s.len() && digit(s[j])
        invariant
            i <= j <= s@.len(),
            digits_end(s@, i as int) == digits_end(s@, j as int),
        decreases s@.len() - j,
    {
        j = j + 1;
    }
    j
}

fn token(s: &Vec<char>, i: usize, c: char, far: &mut usize) -> (r: Option<usize>)
    requires
        i <= s@.len(),
        *old(far) <= s@.len(),
    ensures
        *final(far) <= s@.len(),
        match r {
            Some(j) => sp_token(s@, i as int, c) == Some(j as int) && i < j <= s@.len(),
            None => sp_token(s@, i as int, c) is None,
        },
{
    if i < s.len() && s[i] == c {
        Some(skip(s, i + 1))
    } else {
        note_failure(far, i);
        None
    }
}

fn ident(s: &Vec<char>, i: usize, far: &mut usize) -> (r: Option<(String, usize)>)
    requires
        i <= s@.len(),
        *old(far) <= s@.len(),
    ensures
        *final(far) <= s@.len(),
        match r {
            Some((n, j)) => sp_ident(s@, i as int) == Some((n@, j as int)) && i < j <= s@.len(),
            None => sp_ident(s@, i as int) is None,
        },
{
    if i < s.len() && letter(s[i]) {
        let e = scan_word(s, i + 1);
        Some((string_of(s, i, e), skip(s, e)))
    } else {
        note_failure(far, i);
        None
    }
}

fn number(s: &Vec<char>, i: usize, far: &mut usize) -> (r: Option<(String, usize)>)
    requires
        i <= s@.len(),
        *old(far) <= s@.len(),
    ensures
        *final(far) <= s@.len(),
        match r {
            Some((d, j)) => sp_number(s@, i as int) == Some((d@, j as int)) && i < j <= s@.len(),
            None => sp_number(s@, i as int) is None,
        },
{
    if i < s.len() && digit(s[i]) {
        let e = scan_digits(s, i + 1);
        Some((string_of(s, i, e), skip(s, e)))
    } else {
        note_failure(far, i);
        None
    }
}

fn keyword(s: &Vec<char>, i: usize, kw: &Vec<char>) -> (r: Option<usize>)
    requires
        i <= s@.len(),
    ensures
        match r {
            Some(j) => sp_keyword(s@, i as int, kw@) == Some(j as int) && i < j <= s@.len(),
            None => sp_keyword(s@, i as int, kw@) is None,
        },
{
    if i < s.len() && letter(s[i]) {
        let e = scan_word(s, i + 1);
        let ghost w = s@.subrange(i as int, e as int);
        assert(sp_ident(s@, i as int) == Some((w, skip_space(s@, e as int))));
        if e - i != kw.len() {
            assert(w.len() != kw@.len());
            return None;
        }
        let mut t: usize = 0;
        while t < kw.len()
            invariant
                t <= kw@.len(),
                e - i == kw@.len(),
                i < e <= s@.len(),
                w == s@.subrange(i as int, e as int),
                sp_ident(s@, i as int) == Some((w, skip_space(s@, e as int))),
                forall|u: int| 0 <= u < t ==> #[trigger] w[u] == kw@[u],
            decreases kw@.len() - t,
        {
            if s[i + t] != kw[t] {
                assert(w[t as int] != kw@[t as int]);
                return None;
            }
            t = t + 1;
        }
        assert(w =~= kw@);
        Some(skip(s, e))
    } else {
        None
    }
}

fn params(s: &Vec<char>, i: usize, far: &mut usize) -> (r: (Vec<String>, usize))
    requires
        i <= s@.len(),
        *old(far) <= s@.len(),
    ensures
        *final(far) <= s@.len(),
        sp_params(s@, i as int) == (r.0.deep_view(), r.1 as int),
        i <= r.1 <= s@.len(),
{
    let mut ps: Vec<String> = Vec::new();
    let mut j = i;
    assert(ps.deep_view() + sp_params(s@, j as int).0 =~= sp_params(s@, i as int).0);
    loop
        invariant
            i <= j <= s@.len(),
            *far <= s@.len(),
            ps.deep_view() + sp_params(s@, j as int).0 == sp_params(s@, i as int).0,
            sp_params(s@, j as int).1 == sp_params(s@, i as int).1,
        decreases s@.len() - j,
    {
        match ident(s, j, far) {
            Some((n, k)) => {
                let ghost old_dv = ps.deep_view();
                let ghost rest = sp_params(s@, k as int).0;
                ps.push(n);
                assert(ps.deep_view() =~= old_dv.push(n@));
                assert(ps.deep_view() + rest =~= old_dv + (seq![n@] + rest));
                j = k;
            },
            None => {
                assert(ps.deep_view() + Seq::<Seq<char>>::empty() =~= ps.deep_view());
                return (ps, j);
            },
        }
    }
}


/// `r` is what the rule `sr` gives at `i`: the same tree, the same end, an
/// end after `i`.
pub open spec fn parsed(r: Option<(Expr, usize)>, sr: Option<(SExpr, int)>, i: int, n: int) -> bool {
    match r {
        Some((e, j)) => sr == Some((e.view(), j as int)) && i < j <= n,
        None => sr is None,
    }
}

fn operator(s: &Vec<char>, i: usize, c1: char, o1: BinOp, c2: char, o2: BinOp, far: &mut usize) -> (r:
    Option<(BinOp, usize)>)
    requires
        i <= s@.len(),
        *old(far) <= s@.len(),
    ensures
        *final(far) <= s@.len(),
        match r {
            Some((op, k)) => sp_operator(s@, i as int, c1, o1, c2, o2) == Some((op, k as int)) && i
                < k <= s@.len(),
            None => sp_operator(s@, i as int, c1, o1, c2, o2) is None,
        },
{
    match token(s, i, c1, far) {
        Some(k) => Some((o1, k)),
        None => match token(s, i, c2, far) {
            Some(k) => Some((o2, k)),
            None => None,
        },
    }
}

fn expr(s: &Vec<char>, i: usize, far: &mut usize) -> (r: Option<(Expr, usize)>)
    requires
        i <= s@.len(),
        *old(far) <= s@.len(),
    ensures
        *final(far) <= s@.len(),
        parsed(r, sp_expr(s@, i as int), i as int, s@.len() as int),
    decreases s@.len() - i, 6nat,
{
    sum(s, i, far)
}

fn sum(s: &Vec<char>, i: usize, far: &mut usize) -> (r: Option<(Expr, usize)>)
    requires
        i <= s@.len(),
        *old(far) <= s@.len(),
    ensures
        *final(far) <= s@.len(),
        parsed(r, sp_sum(s@, i as int), i as int, s@.len() as int),
    decreases s@.len() - i, 5nat,
{
    let (mut acc, mut j) = match product(s, i, far) {
        Some(x) => x,
        None => {
            return None;
        },
    };
    loop
        invariant
            i < j <= s@.len(),
            *far <= s@.len(),
            sp_sum(s@, i as int) == sp_sum_tail(s@, acc.view(), j as int),
        decreases s@.len() - j,
    {
        let (op, k) = match operator(s, j, '+', BinOp::Add, '-', BinOp::Sub, far) {
            Some(x) => x,
            None => {
                return Some((acc, j));
            },
        };
        match product(s, k, far) {
            Some((r, m)) => {
                acc = Expr::Binary(op, Box::new(acc), Box::new(r));
                j = m;
            },
            None => {
                return Some((acc, j));
            },
        }
    }
}

fn product(s: &Vec<char>, i: usize, far: &mut usize) -> (r: Option<(Expr, usize)>)
    requires
        i <= s@.len(),
        *old(far) <= s@.len(),
    ensures
        *final(far) <= s@.len(),
        parsed(r, sp_product(s@, i as int), i as int, s@.len() as int),
    decreases s@.len() - i, 4nat,
{
    let (mut acc, mut j) = match unary(s, i, far) {
        Some(x) => x,
        None => {
            return None;
        },
    };
    loop
        invariant
            i < j <= s@.len(),
            *far <= s@.len(),
            sp_product(s@, i as int) == sp_product_tail(s@, acc.view(), j as int),
        decreases s@.len() - j,
    {
        let (op, k) = match operator(s, j, '*', BinOp::Mul, '/', BinOp::Div, far) {
            Some(x) => x,
            None => {
                return Some((acc, j));
            },
        };
        match unary(s, k, far) {
            Some((r, m)) => {
                acc = Expr::Binary(op, Box::new(acc), Box::new(r));
                j = m;
            },
            None => {
                return Some((acc, j));
            },
        }
    }
}

fn unary(s: &Vec<char>, i: usize, far: &mut usize) -> (r: Option<(Expr, usize)>)
    requires
        i <= s@.len(),
        *old(far) <= s@.len(),
    ensures
        *final(far) <= s@.len(),
        parsed(r, sp_unary(s@, i as int), i as int, s@.len() as int),
    decreases s@.len() - i, 3nat,
{
    match token(s, i, '-', far) {
        Some(k) => match unary(s, k, far) {
            Some((a, m)) => Some((Expr::Neg(Box::new(a)), m)),
            None => None,
        },
        None => atom(s, i, far),
    }
}

fn atom(s: &Vec<char>, i: usize, far: &mut usize) -> (r: Option<(Expr, usize)>)
    requires
        i <= s@.len(),
        *old(far) <= s@.len(),
    ensures
        *final(far) <= s@.len(),
        parsed(r, sp_atom(s@, i as int), i as int, s@.len() as int),
    decreases s@.len() - i, 2nat,
{
    match number(s, i, far) {
        Some((d, j)) => {
            return Some((Expr::Num(d), j));
        },
        None => {},
    }
    match paren(s, i, far) {
        Some(r) => {
            return Some(r);
        },
        None => {},
    }
    match call(s, i, far) {
        Some(r) => {
            return Some(r);
        },
        None => {},
    }
    match ident(s, i, far) {
        Some((n, j)) => Some((Expr::Var(n), j)),
        None => None,
    }
}

fn paren(s: &Vec<char>, i: usize, far: &mut usize) -> (r: Option<(Expr, usize)>)
    requires
        i <= s@.len(),
        *old(far) <= s@.len(),
    ensures
        *final(far) <= s@.len(),
        parsed(r, sp_paren(s@, i as int), i as int, s@.len() as int),
    decreases s@.len() - i, 1nat,
{
    let k = match token(s, i, '(', far) {
        Some(k) => k,
        None => {
            return None;
        },
    };
    let (e, j) = match expr(s, k, far) {
        Some(x) => x,
        None => {
            return None;
        },
    };
    match token(s, j, ')', far) {
        Some(m) => Some((e, m)),
        None => None,
    }
}

fn call(s: &Vec<char>, i: usize, far: &mut usize) -> (r: Option<(Expr, usize)>)
    requires
        i <= s@.len(),
        *old(far) <= s@.len(),
    ensures
        *final(far) <= s@.len(),
        parsed(r, sp_call(s@, i as int), i as int, s@.len() as int),
    decreases s@.len() - i, 1nat,
{
    let (n, j) = match ident(s, i, far) {
        Some(x) => x,
        None => {
            return None;
        },
    };
    let k = match token(s, j, '(', far) {
        Some(k) => k,
        None => {
            return None;
        },
    };
    match args(s, k, far) {
        Some((a, m)) => Some((Expr::Call(n, a), m)),
        None => None,
    }
}

fn args(s: &Vec<char>, i: usize, far: &mut usize) -> (r: Option<(Vec<Expr>, usize)>)
    requires
        i <= s@.len(),
        *old(far) <= s@.len(),
    ensures
        *final(far) <= s@.len(),
        match r {
            Some((a, m)) => sp_args(s@, i as int) == Some((view_all(a@), m as int)) && i < m
                <= s@.len(),
            None => sp_args(s@, i as int) is None,
        },
    decreases s@.len() - i, 7nat,
{
    match token(s, i, ')', far) {
        Some(m) => {
            let v: Vec<Expr> = Vec::new();
            assert(view_all(v@) =~= Seq::<SExpr>::empty());
            return Some((v, m));
        },
        None => {},
    }
    let (e, mut j) = match expr(s, i, far) {
        Some(x) => x,
        None => {
            return None;
        },
    };
    let mut acc: Vec<Expr> = Vec::new();
    acc.push(e);
    proof {
        assert(acc@.subrange(0, 0) =~= Seq::<Expr>::empty());
        assert(view_all(acc@.subrange(0, 0)) == Seq::<SExpr>::empty());
        assert(view_all(acc@) == Seq::<SExpr>::empty().push(acc@[0].view()));
        assert(view_all(acc@) =~= seq![acc@[0].view()]);
    }
    loop
        invariant
            i < j <= s@.len(),
            *far <= s@.len(),
            sp_args(s@, i as int) == sp_args_rest(s@, view_all(acc@), j as int),
        decreases s@.len() - j,
    {
        match token(s, j, ',', far) {
            Some(k) => {
                match token(s, k, ')', far) {
                    Some(m) => {
                        return Some((acc, m));
                    },
                    None => {},
                }
                match expr(s, k, far) {
                    Some((e, m)) => {
                        let ghost prev = acc@;
                        acc.push(e);
                        assert(acc@.subrange(0, acc@.len() - 1) =~= prev);
                        j = m;
                    },
                    None => {
                        return None;
                    },
                }
            },
            None => {
                return match token(s, j, ')', far) {
                    Some(m) => Some((acc, m)),
                    None => None,
                };
            },
        }
    }
}

fn decl(s: &Vec<char>, i: usize, far: &mut usize) -> (r: Option<(Expr, usize)>)
    requires
        i <= s@.len(),
        *old(far) <= s@.len(),
    ensures
        *final(far) <= s@.len(),
        parsed(r, sp_decl(s@, i as int), i as int, s@.len() as int),
    decreases s@.len() - i, 9nat,
{
    match let_decl(s, i, far) {
        Some(r) => {
            return Some(r);
        },
        None => {},
    }
    match fn_decl(s, i, far) {
        Some(r) => {
            return Some(r);
        },
        None => {},
    }
    expr(s, i, far)
}

fn let_decl(s: &Vec<char>, i: usize, far: &mut usize) -> (r: Option<(Expr, usize)>)
    requires
        i <= s@.len(),
        *old(far) <= s@.len(),
    ensures
        *final(far) <= s@.len(),
        parsed(r, sp_let(s@, i as int), i as int, s@.len() as int),
    decreases s@.len() - i, 8nat,
{
    let kw = vec!['l', 'e', 't'];
    assert(kw@ == seq!['l', 'e', 't']);
    let j = match keyword(s, i, &kw) {
        Some(j) => j,
        None => {
            return None;
        },
    };
    let (name, k) = match ident(s, j, far) {
        Some(x) => x,
        None => {
            return None;
        },
    };
    let m = match token(s, k, '=', far) {
        Some(m) => m,
        None => {
            return None;
        },
    };
    let (rhs, p) = match expr(s, m, far) {
        Some(x) => x,
        None => {
            return None;
        },
    };
    let q = match token(s, p, ';', far) {
        Some(q) => q,
        None => {
            return None;
        },
    };
    match decl(s, q, far) {
        Some((then, r)) => Some((Expr::Let { name, rhs: Box::new(rhs), then: Box::new(then) }, r)),
        None => None,
    }
}

fn fn_decl(s: &Vec<char>, i: usize, far: &mut usize) -> (r: Option<(Expr, usize)>)
    requires
        i <= s@.len(),
        *old(far) <= s@.len(),
    ensures
        *final(far) <= s@.len(),
        parsed(r, sp_fn(s@, i as int), i as int, s@.len() as int),
    decreases s@.len() - i, 8nat,
{
    let kw = vec!['f', 'n'];
    assert(kw@ == seq!['f', 'n']);
    let j = match keyword(s, i, &kw) {
        Some(j) => j,
        None => {
            return None;
        },
    };
    let (name, k) = match ident(s, j, far) {
        Some(x) => x,
        None => {
            return None;
        },
    };
    let (ps, m) = params(s, k, far);
    let p = match token(s, m, '=', far) {
        Some(p) => p,
        None => {
            return None;
        },
    };
    let (body, q) = match expr(s, p, far) {
        Some(x) => x,
        None => {
            return None;
        },
    };
    let t = match token(s, q, ';', far) {
        Some(t) => t,
        None => {
            return None;
        },
    };
    match decl(s, t, far) {
        Some((then, r)) => Some(
            (Expr::Fn { name, params: ps, body: Box::new(body), then: Box::new(then) }, r),
        ),
        None => None,
    }
}


fn syntax_error(s: &Vec<char>, at: usize) -> (r: SyntaxError)
    requires
        at <= s@.len(),
    ensures
        r.start == at,
        r.start <= r.end <= s@.len(),
{
    if at < s.len() {
        let found = string_of(s, at, at + 1);
        let message = String::from_str("unexpected character `").concat(found.as_str()).concat("`");
        SyntaxError { message, start: at, end: at + 1 }
    } else {
        SyntaxError { message: String::from_str("unexpected end of input"), start: at, end: at }
    }
}

/// Parses a whole program given as characters. On failure the one error
/// reported sits at the furthest position where the input did not match.
pub fn parse_chars(s: &Vec<char>) -> (r: Result<Expr, Vec<SyntaxError>>)
    ensures
        match r {
            Ok(e) => sp_program(s@) == Some(e.view()),
            Err(errs) => sp_program(s@) is None && errs@.len() == 1 && errs@[0].start
                <= errs@[0].end <= s@.len(),
        },
{
    let mut far: usize = 0;
    let i = skip(s, 0);
    match decl(s, i, &mut far) {
        Some((e, j)) => {
            if j == s.len() {
                return Ok(e);
            }
            note_failure(&mut far, j);
        },
        None => {},
    }
    let mut errs: Vec<SyntaxError> = Vec::new();
    errs.push(syntax_error(s, far));
    Err(errs)
}

/// Parses a whole program.
pub fn parse(src: &str) -> (r: Result<Expr, Vec<SyntaxError>>)
    ensures
        match r {
            Ok(e) => sp_program(src@) == Some(e.view()),
            Err(errs) => sp_program(src@) is None && errs@.len() == 1 && errs@[0].start
                <= errs@[0].end <= src@.len(),
        },
{
    let s = chars_of(src);
    parse_chars(&s)
}


/// A comma in front of the closing parenthesis of an argument list changes
/// nothing: read from the comma or from the parenthesis, the list holds the
/// arguments before it and ends after the parenthesis.
pub proof fn lemma_trailing_comma(s: Seq<char>, acc: Seq<SExpr>, i: int)
    requires
        0 <= i,
        i + 1 < s.len(),
        s[i] == ',',
        s[i + 1] == ')',
    ensures
        sp_args_rest(s, acc, i) == Some((acc, skip_space(s, i + 2))),
        sp_args_rest(s, acc, i + 1) == sp_args_rest(s, acc, i),
{
    assert(skip_space(s, i + 1) == i + 1);
}

} // verus!
