use vstd::prelude::*;
use crate::ast::{BinOp, Expr, SExpr, view_all, lemma_view_all_len};

verus! {

/// Largest number of function calls that evaluation follows one inside
/// another. The language has no conditionals, so a program that recurses
/// never stops; the limit turns that into an error.
pub const MAX_CALL_DEPTH: usize = 200;

/// A closed arithmetic term: the value that a program computes, before it is
/// computed on floating-point numbers.
pub enum Term {
    Lit(Seq<char>),
    Neg(Box<Term>),
    Bin(BinOp, Box<Term>, Box<Term>),
}

/// The model of an evaluation error.
pub enum Fault {
    UndefinedVariable(Seq<char>),
    UndefinedFunction(Seq<char>),
    ArityMismatch(Seq<char>, nat, nat),
    CallDepthExceeded(Seq<char>),
}

/// Why evaluation stopped.
#[derive(Debug)]
pub enum EvalError {
    UndefinedVariable { name: String },
    UndefinedFunction { name: String },
    ArityMismatch { name: String, expected: usize, found: usize },
    CallDepthExceeded { name: String },
}

impl EvalError {
    pub open spec fn view(&self) -> Fault {
        match self {
            EvalError::UndefinedVariable { name } => Fault::UndefinedVariable(name@),
            EvalError::UndefinedFunction { name } => Fault::UndefinedFunction(name@),
            EvalError::ArityMismatch { name, expected, found } => Fault::ArityMismatch(
                name@,
                *expected as nat,
                *found as nat,
            ),
            EvalError::CallDepthExceeded { name } => Fault::CallDepthExceeded(name@),
        }
    }
}

/// One step of a lowered program. `Neg` and `Bin` name the results of
/// earlier steps by their position.
#[derive(Debug)]
pub enum Op {
    Lit(String),
    Neg(usize),
    Bin(BinOp, usize, usize),
}

/// A straight-line program: its steps and the step whose result is the value.
#[derive(Debug)]
pub struct Program {
    pub ops: Vec<Op>,
    pub result: usize,
}

/// Each step refers only to steps before it.
pub open spec fn ops_wf(ops: Seq<Op>) -> bool {
    forall|k: int|
        0 <= k < ops.len() ==> match #[trigger] ops[k] {
            Op::Lit(_) => true,
            Op::Neg(a) => a < k,
            Op::Bin(_, a, b) => a < k && b < k,
        }
}

/// The term that step `k` computes.
pub open spec fn term_at(ops: Seq<Op>, k: int) -> Term
    decreases k,
{
    if 0 <= k < ops.len() {
        match ops[k] {
            Op::Lit(d) => Term::Lit(d@),
            Op::Neg(a) => if a < k {
                Term::Neg(Box::new(term_at(ops, a as int)))
            } else {
                Term::Lit(Seq::empty())
            },
            Op::Bin(op, a, b) => if a < k && b < k {
                Term::Bin(op, Box::new(term_at(ops, a as int)), Box::new(term_at(ops, b as int)))
            } else {
                Term::Lit(Seq::empty())
            },
        }
    } else {
        Term::Lit(Seq::empty())
    }
}

impl Program {
    pub open spec fn wf(&self) -> bool {
        ops_wf(self.ops@) && self.result < self.ops@.len()
    }

    /// The term that the program computes.
    pub open spec fn term(&self) -> Term {
        term_at(self.ops@, self.result as int)
    }
}

/// A function definition in the model: name, parameters, body.
pub type FnDef = (Seq<char>, Seq<Seq<char>>, SExpr);

/// The most recent binding of `name`.
pub open spec fn lookup_var(vars: Seq<(Seq<char>, Term)>, name: Seq<char>) -> Option<Term>
    decreases vars.len(),
{
    if vars.len() == 0 {
        None
    } else if vars.last().0 == name {
        Some(vars.last().1)
    } else {
        lookup_var(vars.drop_last(), name)
    }
}

/// The most recent definition of `name`.
pub open spec fn lookup_fn(fns: Seq<FnDef>, name: Seq<char>) -> Option<FnDef>
    decreases fns.len(),
{
    if fns.len() == 0 {
        None
    } else if fns.last().0 == name {
        Some(fns.last())
    } else {
        lookup_fn(fns.drop_last(), name)
    }
}

/// Parameters paired with argument values, in order.
pub open spec fn bind(params: Seq<Seq<char>>, vals: Seq<Term>) -> Seq<(Seq<char>, Term)> {
    Seq::new(params.len(), |i: int| (params[i], vals[i]))
}

/// The value of `e` under the variable stack `vars` and the function stack
/// `fns`, following at most `depth` nested calls. Variables and functions
/// are looked up most recent first; a function body sees the caller's
/// variables below its own parameters.
pub open spec fn eval(
    e: SExpr,
    vars: Seq<(Seq<char>, Term)>,
    fns: Seq<FnDef>,
    depth: nat,
) -> Result<Term, Fault>
    decreases depth, e,
{
    match e {
        SExpr::Num(d) => Ok(Term::Lit(d)),
        SExpr::Var(n) => match lookup_var(vars, n) {
            Some(t) => Ok(t),
            None => Err(Fault::UndefinedVariable(n)),
        },
        SExpr::Neg(a) => match eval(*a, vars, fns, depth) {
            Ok(t) => Ok(Term::Neg(Box::new(t))),
            Err(f) => Err(f),
        },
        SExpr::Binary(op, a, b) => match eval(*a, vars, fns, depth) {
            Err(f) => Err(f),
            Ok(l) => match eval(*b, vars, fns, depth) {
                Err(f) => Err(f),
                Ok(r) => Ok(Term::Bin(op, Box::new(l), Box::new(r))),
            },
        },
        SExpr::Let { name, rhs, then } => match eval(*rhs, vars, fns, depth) {
            Err(f) => Err(f),
            Ok(v) => eval(*then, vars.push((name, v)), fns, depth),
        },
        SExpr::Fn { name, params, body, then } => eval(
            *then,
            vars,
            fns.push((name, params, *body)),
            depth,
        ),
        SExpr::Call(name, args) => match lookup_fn(fns, name) {
            None => Err(Fault::UndefinedFunction(name)),
            Some(f) => if f.1.len() != args.len() {
                Err(Fault::ArityMismatch(name, f.1.len(), args.len()))
            } else {
                match eval_args(args, vars, fns, depth) {
                    Err(x) => Err(x),
                    Ok(vals) => if depth == 0 {
                        Err(Fault::CallDepthExceeded(name))
                    } else {
                        eval(f.2, vars + bind(f.1, vals), fns, (depth - 1) as nat)
                    },
                }
            },
        },
    }
}

/// The values of `args`, left to right; the first error wins.
pub open spec fn eval_args(
    args: Seq<SExpr>,
    vars: Seq<(Seq<char>, Term)>,
    fns: Seq<FnDef>,
    depth: nat,
) -> Result<Seq<Term>, Fault>
    decreases depth, args,
{
    if args.len() == 0 {
        Ok(Seq::empty())
    } else {
        match eval_args(args.subrange(0, args.len() - 1), vars, fns, depth) {
            Err(x) => Err(x),
            Ok(ts) => match eval(args[args.len() - 1], vars, fns, depth) {
                Err(x) => Err(x),
                Ok(t) => Ok(ts.push(t)),
            },
        }
    }
}

/// The value of a whole program: empty stacks, the default call depth.
pub open spec fn eval_program(e: SExpr) -> Result<Term, Fault> {
    eval(e, Seq::empty(), Seq::empty(), MAX_CALL_DEPTH as nat)
}


/// `b` starts with `a`.
pub open spec fn extends<T>(a: Seq<T>, b: Seq<T>) -> bool {
    a.len() <= b.len() && b.subrange(0, a.len() as int) == a
}

/// The model of the evaluator's variable stack: names with the terms of
/// the steps they refer to.
pub open spec fn vars_view(vars: Seq<(&String, usize)>, ops: Seq<Op>) -> Seq<(Seq<char>, Term)> {
    Seq::new(vars.len(), |i: int| (vars[i].0@, term_at(ops, vars[i].1 as int)))
}

/// The model of the evaluator's function stack.
pub open spec fn fns_view(fns: Seq<(&String, &Vec<String>, &Expr)>) -> Seq<FnDef> {
    Seq::new(fns.len(), |i: int| (fns[i].0@, fns[i].1.deep_view(), fns[i].2.view()))
}

pub open spec fn slots_below(vars: Seq<(&String, usize)>, n: nat) -> bool {
    forall|i: int| 0 <= i < vars.len() ==> #[trigger] vars[i].1 < n
}

/// Appending steps leaves the terms of the earlier ones as they were.
pub proof fn lemma_term_at_extends(a: Seq<Op>, b: Seq<Op>, k: int)
    requires
        extends(a, b),
        0 <= k < a.len(),
    ensures
        term_at(b, k) == term_at(a, k),
    decreases k,
{
    assert(b[k] == a[k]);
    match a[k] {
        Op::Lit(_) => {},
        Op::Neg(x) => {
            if x < k {
                lemma_term_at_extends(a, b, x as int);
            }
        },
        Op::Bin(_, x, y) => {
            if x < k && y < k {
                lemma_term_at_extends(a, b, x as int);
                lemma_term_at_extends(a, b, y as int);
            }
        },
    }
}

proof fn lemma_vars_view_extends(vars: Seq<(&String, usize)>, a: Seq<Op>, b: Seq<Op>)
    requires
        extends(a, b),
        slots_below(vars, a.len()),
    ensures
        vars_view(vars, b) == vars_view(vars, a),
        slots_below(vars, b.len()),
{
    assert forall|i: int| 0 <= i < vars.len() implies #[trigger] term_at(b, vars[i].1 as int)
        == term_at(a, vars[i].1 as int) by {
        lemma_term_at_extends(a, b, vars[i].1 as int);
    }
    assert(vars_view(vars, b) =~= vars_view(vars, a));
}

proof fn lemma_extends_trans<T>(a: Seq<T>, b: Seq<T>, c: Seq<T>)
    requires
        extends(a, b),
        extends(b, c),
    ensures
        extends(a, c),
{
    assert(c.subrange(0, a.len() as int) =~= b.subrange(0, a.len() as int));
}

proof fn lemma_extends_push<T>(a: Seq<T>, x: T)
    ensures
        extends(a, a.push(x)),
{
    assert(a.push(x).subrange(0, a.len() as int) =~= a);
}

/// Once a prefix of the arguments fails, so do all the arguments.
proof fn lemma_eval_args_err(
    args: Seq<SExpr>,
    m: int,
    vars: Seq<(Seq<char>, Term)>,
    fns: Seq<FnDef>,
    depth: nat,
)
    requires
        0 <= m <= args.len(),
        eval_args(args.subrange(0, m), vars, fns, depth) is Err,
    ensures
        eval_args(args, vars, fns, depth) == eval_args(args.subrange(0, m), vars, fns, depth),
    decreases args.len(),
{
    if m < args.len() {
        let init = args.subrange(0, args.len() - 1);
        assert(init.subrange(0, m) =~= args.subrange(0, m));
        lemma_eval_args_err(init, m, vars, fns, depth);
    } else {
        assert(args.subrange(0, m) =~= args);
    }
}

/// Index of the most recent function named `name`.
fn find_fn<'a>(fns: &Vec<(&'a String, &'a Vec<String>, &'a Expr)>, name: &String) -> (r: Option<
    usize,
>)
    ensures
        match r {
            Some(i) => i < fns@.len() && lookup_fn(fns_view(fns@), name@) == Some(
                fns_view(fns@)[i as int],
            ),
            None => lookup_fn(fns_view(fns@), name@) is None,
        },
{
    let ghost fv = fns_view(fns@);
    let mut i: usize = fns.len();
    assert(fv.subrange(0, i as int) =~= fv);
    while i > 0
        invariant
            i <= fns@.len(),
            fv == fns_view(fns@),
            lookup_fn(fv, name@) == lookup_fn(fv.subrange(0, i as int), name@),
        decreases i,
    {
        let ghost sub = fv.subrange(0, i as int);
        if fns[i - 1].0.eq(name) {
            assert(sub.last() == fv[i - 1]);
            return Some(i - 1);
        }
        assert(sub.drop_last() =~= fv.subrange(0, i - 1));
        i = i - 1;
    }
    assert(fv.subrange(0, 0) =~= Seq::<FnDef>::empty());
    None
}

/// Lowers `e` under the given stacks, appending its steps to `ops`. On
/// return both stacks are as they were, and the steps already in `ops` are
/// kept.
fn lower<'a>(
    e: &'a Expr,
    vars: &mut Vec<(&'a String, usize)>,
    fns: &mut Vec<(&'a String, &'a Vec<String>, &'a Expr)>,
    ops: &mut Vec<Op>,
    depth: usize,
) -> (r: Result<usize, EvalError>)
    requires
        ops_wf(old(ops)@),
        slots_below(old(vars)@, old(ops)@.len()),
    ensures
        final(vars)@ == old(vars)@,
        final(fns)@ == old(fns)@,
        ops_wf(final(ops)@),
        extends(old(ops)@, final(ops)@),
        match r {
            Ok(k) => k < final(ops)@.len() && eval(
                e.view(),
                vars_view(old(vars)@, old(ops)@),
                fns_view(old(fns)@),
                depth as nat,
            ) == Ok::<Term, Fault>(term_at(final(ops)@, k as int)),
            Err(x) => eval(
                e.view(),
                vars_view(old(vars)@, old(ops)@),
                fns_view(old(fns)@),
                depth as nat,
            ) == Err::<Term, Fault>(x.view()),
        },
    decreases depth, e, 1nat,
{
    let ghost vv = vars_view(vars@, ops@);
    let ghost fv = fns_view(fns@);
    let ghost ops0 = ops@;
    match e {
        Expr::Num(d) => {
            ops.push(Op::Lit(d.clone()));
            proof {
                lemma_extends_push(ops0, ops@.last());
            }
            Ok(ops.len() - 1)
        },
        Expr::Var(n) => {
            let mut i: usize = vars.len();
            assert(vv.subrange(0, i as int) =~= vv);
            while i > 0
                invariant
                    i <= vars@.len(),
                    vars@ == old(vars)@,
                    ops@ == ops0,
                    ops@ == old(ops)@,
                    *e == Expr::Var(*n),
                    ops_wf(ops@),
                    slots_below(vars@, ops@.len()),
                    vv == vars_view(vars@, ops@),
                    lookup_var(vv, n@) == lookup_var(vv.subrange(0, i as int), n@),
                decreases i,
            {
                let ghost sub = vv.subrange(0, i as int);
                if vars[i - 1].0.eq(n) {
                    assert(sub.last() == vv[i - 1]);
                    assert(vv[i - 1].0 == n@);
                    assert(lookup_var(sub, n@) == Some(vv[i - 1].1));
                    proof {
                        assert(ops@.subrange(0, ops@.len() as int) =~= ops@);
                    }
                    return Ok(vars[i - 1].1);
                }
                assert(sub.drop_last() =~= vv.subrange(0, i - 1));
                i = i - 1;
            }
            assert(vv.subrange(0, 0) =~= Seq::<(Seq<char>, Term)>::empty());
            proof {
                assert(ops@.subrange(0, ops@.len() as int) =~= ops@);
            }
            Err(EvalError::UndefinedVariable { name: n.clone() })
        },
        Expr::Neg(a) => {
            match lower(a, vars, fns, ops, depth) {
                Err(x) => Err(x),
                Ok(k) => {
                    let ghost ops1 = ops@;
                    ops.push(Op::Neg(k));
                    proof {
                        lemma_extends_push(ops1, ops@.last());
                        lemma_extends_trans(ops0, ops1, ops@);
                        lemma_term_at_extends(ops1, ops@, k as int);
                    }
                    Ok(ops.len() - 1)
                },
            }
        },
        Expr::Binary(op, a, b) => {
            match lower(a, vars, fns, ops, depth) {
                Err(x) => Err(x),
                Ok(ka) => {
                    let ghost ops1 = ops@;
                    proof {
                        lemma_vars_view_extends(vars@, ops0, ops1);
                    }
                    match lower(b, vars, fns, ops, depth) {
                        Err(x) => {
                            proof {
                                lemma_extends_trans(ops0, ops1, ops@);
                            }
                            Err(x)
                        },
                        Ok(kb) => {
                            let ghost ops2 = ops@;
                            ops.push(Op::Bin(*op, ka, kb));
                            proof {
                                lemma_extends_push(ops2, ops@.last());
                                lemma_extends_trans(ops1, ops2, ops@);
                                lemma_extends_trans(ops0, ops1, ops@);
                                lemma_term_at_extends(ops1, ops@, ka as int);
                                lemma_term_at_extends(ops2, ops@, kb as int);
                            }
                            Ok(ops.len() - 1)
                        },
                    }
                },
            }
        },
        Expr::Let { name, rhs, then } => {
            match lower(rhs, vars, fns, ops, depth) {
                Err(x) => Err(x),
                Ok(k) => {
                    let ghost ops1 = ops@;
                    proof {
                        lemma_vars_view_extends(vars@, ops0, ops1);
                    }
                    vars.push((name, k));
                    proof {
                        assert(vars_view(vars@, ops1) =~= vv.push((name@, term_at(ops1, k as int))));
                    }
                    let r = lower(then, vars, fns, ops, depth);
                    proof {
                        lemma_extends_trans(ops0, ops1, ops@);
                    }
                    vars.pop();
                    r
                },
            }
        },
        Expr::Fn { name, params, body, then } => {
            fns.push((name, params, &**body));
            assert(fns_view(fns@) =~= fv.push((name@, params.deep_view(), body.view())));
            let r = lower(then, vars, fns, ops, depth);
            fns.pop();
            r
        },
        Expr::Call(_, _) => lower_call(e, vars, fns, ops, depth),
    }
}


/// Lowers a call: finds the function, checks the argument count, lowers the
/// arguments left to right under the caller's stacks, then lowers the body
/// with the parameters bound on top of the caller's variables.
fn lower_call<'a>(
    e: &'a Expr,
    vars: &mut Vec<(&'a String, usize)>,
    fns: &mut Vec<(&'a String, &'a Vec<String>, &'a Expr)>,
    ops: &mut Vec<Op>,
    depth: usize,
) -> (r: Result<usize, EvalError>)
    requires
        e is Call,
        ops_wf(old(ops)@),
        slots_below(old(vars)@, old(ops)@.len()),
    ensures
        final(vars)@ == old(vars)@,
        final(fns)@ == old(fns)@,
        ops_wf(final(ops)@),
        extends(old(ops)@, final(ops)@),
        match r {
            Ok(k) => k < final(ops)@.len() && eval(
                e.view(),
                vars_view(old(vars)@, old(ops)@),
                fns_view(old(fns)@),
                depth as nat,
            ) == Ok::<Term, Fault>(term_at(final(ops)@, k as int)),
            Err(x) => eval(
                e.view(),
                vars_view(old(vars)@, old(ops)@),
                fns_view(old(fns)@),
                depth as nat,
            ) == Err::<Term, Fault>(x.view()),
        },
    decreases depth, e, 0nat,
{
    let ghost vv = vars_view(vars@, ops@);
    let ghost fv = fns_view(fns@);
    let ghost ops0 = ops@;
    let (name, args) = match e {
        Expr::Call(name, args) => (name, args),
        _ => {
            return Err(EvalError::UndefinedFunction { name: String::new() });
        },
    };
    assert(*e == Expr::Call(*name, *args));
    let ghost sargs = view_all(args@);
    proof {
        lemma_view_all_len(args@);
        assert(ops0.subrange(0, ops0.len() as int) =~= ops0);
    }
    let fi = match find_fn(fns, name) {
        None => {
            return Err(EvalError::UndefinedFunction { name: name.clone() });
        },
        Some(fi) => fi,
    };
    let entry = fns[fi];
    let params = entry.1;
    let body = entry.2;
    if params.len() != args.len() {
        return Err(
            EvalError::ArityMismatch { name: name.clone(), expected: params.len(), found: args.len() },
        );
    }
    assert(fv[fi as int].1 == params.deep_view());
    assert(params.deep_view().len() == params@.len());
    let mut slots: Vec<usize> = Vec::new();
    let mut j: usize = 0;
    assert(Seq::new(0, |t: int| term_at(ops@, slots@[t] as int)) =~= Seq::<Term>::empty());
    while j < args.len()
        invariant
            j <= args@.len(),
            *e == Expr::Call(*name, *args),
            fi < fns@.len(),
            lookup_fn(fv, name@) == Some(fv[fi as int]),
            fv[fi as int].1.len() == sargs.len(),
            ops0 == old(ops)@,
            vv == vars_view(old(vars)@, old(ops)@),
            fv == fns_view(old(fns)@),
            sargs == view_all(args@),
            sargs.len() == args@.len(),
            forall|t: int| 0 <= t < args@.len() ==> #[trigger] sargs[t] == args@[t].view(),
            vars@ == old(vars)@,
            fns@ == old(fns)@,
            ops_wf(ops@),
            extends(ops0, ops@),
            slots_below(vars@, ops@.len()),
            vars_view(vars@, ops@) == vv,
            fv == fns_view(fns@),
            slots@.len() == j,
            forall|t: int| 0 <= t < j ==> #[trigger] slots@[t] < ops@.len(),
            eval_args(sargs.subrange(0, j as int), vv, fv, depth as nat) == Ok::<Seq<Term>, Fault>(
                Seq::new(j as nat, |t: int| term_at(ops@, slots@[t] as int)),
            ),
        decreases args@.len() - j,
    {
        let ghost ops1 = ops@;
        let ghost prev = Seq::new(j as nat, |t: int| term_at(ops1, slots@[t] as int));
        let ghost sub = sargs.subrange(0, j + 1);
        assert(sub.subrange(0, j as int) =~= sargs.subrange(0, j as int));
        assert(sub[j as int] == args@[j as int].view());
        proof {
            assert(decreases_to!(*e => e->Call_1));
            assert(decreases_to!(*args => args@));
            assert(decreases_to!(args@ => args@[j as int]));
        }
        match lower(&args[j], vars, fns, ops, depth) {
            Err(x) => {
                proof {
                    assert(eval_args(sub, vv, fv, depth as nat) == Err::<Seq<Term>, Fault>(
                        x.view(),
                    ));
                    lemma_eval_args_err(sargs, j + 1, vv, fv, depth as nat);
                    assert(sargs.subrange(0, sargs.len() as int) =~= sargs);
                    lemma_extends_trans(ops0, ops1, ops@);
                }
                return Err(x);
            },
            Ok(k) => {
                proof {
                    lemma_vars_view_extends(vars@, ops1, ops@);
                    lemma_extends_trans(ops0, ops1, ops@);
                    assert forall|t: int| 0 <= t < j implies term_at(ops@, #[trigger] slots@[t] as int)
                        == term_at(ops1, slots@[t] as int) by {
                        lemma_term_at_extends(ops1, ops@, slots@[t] as int);
                    }
                }
                slots.push(k);
                assert(Seq::new((j + 1) as nat, |t: int| term_at(ops@, slots@[t] as int))
                    =~= prev.push(term_at(ops@, k as int)));
            },
        }
        j = j + 1;
    }
    let ghost vals = Seq::new(j as nat, |t: int| term_at(ops@, slots@[t] as int));
    assert(sargs.subrange(0, j as int) =~= sargs);
    if depth == 0 {
        return Err(EvalError::CallDepthExceeded { name: name.clone() });
    }
    let ghost ops1 = ops@;
    let base = vars.len();
    let mut j: usize = 0;
    while j < params.len()
        invariant
            j <= params@.len(),
            params@.len() == slots@.len(),
            base == old(vars)@.len(),
            vars@.len() == base + j,
            vars@.subrange(0, base as int) == old(vars)@,
            forall|t: int| 0 <= t < j ==> #[trigger] vars@[base + t] == (&params@[t], slots@[t]),
            forall|t: int| 0 <= t < slots@.len() ==> #[trigger] slots@[t] < ops@.len(),
            ops@ == ops1,
        decreases params@.len() - j,
    {
        vars.push((&params[j], slots[j]));
        assert(vars@.subrange(0, base as int) =~= old(vars)@);
        j = j + 1;
    }
    proof {
        let pv = params.deep_view();
        assert(pv.len() == params@.len());
        assert forall|t: int| 0 <= t < params@.len() implies #[trigger] pv[t] == params@[t]@ by {}
        assert forall|i: int| 0 <= i < vars@.len() implies #[trigger] vars_view(vars@, ops1)[i] == (
            vv + bind(pv, vals))[i] by {
            if i >= base {
                assert(vars@[base + (i - base)] == vars@[i]);
            } else {
                assert(vars@.subrange(0, base as int)[i] == vars@[i]);
            }
        }
        assert(vars_view(vars@, ops1) =~= vv + bind(pv, vals));
        assert forall|i: int| 0 <= i < vars@.len() implies #[trigger] vars@[i].1 < ops1.len() by {
            if i >= base {
                assert(vars@[base + (i - base)] == vars@[i]);
            } else {
                assert(vars@.subrange(0, base as int)[i] == vars@[i]);
            }
        }
    }
    let r = lower(body, vars, fns, ops, depth - 1);
    vars.truncate(base);
    proof {
        lemma_extends_trans(ops0, ops1, ops@);
        assert(vars@ =~= old(vars)@);
    }
    r
}

/// Lowers a whole program, starting from empty stacks.
pub fn evaluate(e: &Expr) -> (r: Result<Program, EvalError>)
    ensures
        match r {
            Ok(p) => p.wf() && eval_program(e.view()) == Ok::<Term, Fault>(p.term()),
            Err(x) => eval_program(e.view()) == Err::<Term, Fault>(x.view()),
        },
{
    let mut vars: Vec<(&String, usize)> = Vec::new();
    let mut fns: Vec<(&String, &Vec<String>, &Expr)> = Vec::new();
    let mut ops: Vec<Op> = Vec::new();
    proof {
        assert(vars_view(vars@, ops@) =~= Seq::empty());
        assert(fns_view(fns@) =~= Seq::empty());
    }
    match lower(e, &mut vars, &mut fns, &mut ops, MAX_CALL_DEPTH) {
        Ok(k) => Ok(Program { ops, result: k }),
        Err(x) => Err(x),
    }
}


/// A tree made of literals, negations and binary operators only.
pub open spec fn is_arithmetic(e: SExpr) -> bool
    decreases e,
{
    match e {
        SExpr::Num(_) => true,
        SExpr::Neg(a) => is_arithmetic(*a),
        SExpr::Binary(_, a, b) => is_arithmetic(*a) && is_arithmetic(*b),
        _ => false,
    }
}

/// The term of an arithmetic tree, node for node.
pub open spec fn arith_term(e: SExpr) -> Term
    decreases e,
{
    match e {
        SExpr::Num(d) => Term::Lit(d),
        SExpr::Neg(a) => Term::Neg(Box::new(arith_term(*a))),
        SExpr::Binary(op, a, b) => Term::Bin(op, Box::new(arith_term(*a)), Box::new(arith_term(*b))),
        _ => Term::Lit(Seq::empty()),
    }
}

/// An arithmetic tree evaluates, under any stacks, to its own term: each
/// operator applies to exactly the operands that the tree gives it.
pub proof fn lemma_arithmetic_eval(
    e: SExpr,
    vars: Seq<(Seq<char>, Term)>,
    fns: Seq<FnDef>,
    depth: nat,
)
    requires
        is_arithmetic(e),
    ensures
        eval(e, vars, fns, depth) == Ok::<Term, Fault>(arith_term(e)),
    decreases e,
{
    match e {
        SExpr::Neg(a) => lemma_arithmetic_eval(*a, vars, fns, depth),
        SExpr::Binary(_, a, b) => {
            lemma_arithmetic_eval(*a, vars, fns, depth);
            lemma_arithmetic_eval(*b, vars, fns, depth);
        },
        _ => {},
    }
}

/// A binary operation, division included, fails only where one of its
/// operands fails: whatever the divisor, dividing is never an error.
pub proof fn lemma_binary_never_fails(
    op: BinOp,
    a: SExpr,
    b: SExpr,
    vars: Seq<(Seq<char>, Term)>,
    fns: Seq<FnDef>,
    depth: nat,
)
    requires
        eval(a, vars, fns, depth) is Ok,
        eval(b, vars, fns, depth) is Ok,
    ensures
        eval(SExpr::Binary(op, Box::new(a), Box::new(b)), vars, fns, depth) == Ok::<Term, Fault>(
            Term::Bin(
                op,
                Box::new(eval(a, vars, fns, depth)->Ok_0),
                Box::new(eval(b, vars, fns, depth)->Ok_0),
            ),
        ),
{
}

} // verus!
