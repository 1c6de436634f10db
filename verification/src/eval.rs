//! The evaluator. A number evaluates to itself; a symbol to its binding;
//! a raw procedure is a diagnostic; a non-empty list is a call: the head
//! is evaluated first, must reduce to a procedure, the arguments are
//! evaluated strictly left to right, and the first failure aborts the
//! call. The built-ins are variadic `+` and `-` over IEEE-754 doubles.

use vstd::prelude::*;
use crate::env::LangEnv;
use crate::exp::{
    LangErr, LangExp, LangProc, SpecErr, SpecExp, display_of, lemma_view_elems, view_elems,
};
use crate::lexer::{spec_tokenize, token_views, tokenize};
use crate::numeric::{add_bits, add_bits_of, neg_bits, neg_bits_of, sub_bits, sub_bits_of};
use crate::parser::{parse, spec_parse};

verus! {

/// Folds floating-point addition over `vals` from the left, starting at
/// `acc`.
pub open spec fn fold_add(acc: u64, vals: Seq<u64>) -> u64
    decreases vals.len(),
{
    if vals.len() == 0 {
        acc
    } else {
        fold_add(add_bits_of(acc, vals[0]), vals.drop_first())
    }
}

/// The sum of `vals` in floating-point addition order, left to right; the
/// empty sum is `0`.
pub open spec fn sum_bits(vals: Seq<u64>) -> u64 {
    if vals.len() == 0 {
        0u64
    } else {
        fold_add(vals[0], vals.drop_first())
    }
}

/// Folds floating-point subtraction over `vals` from the left, starting at
/// `acc`.
pub open spec fn fold_sub(acc: u64, vals: Seq<u64>) -> u64
    decreases vals.len(),
{
    if vals.len() == 0 {
        acc
    } else {
        fold_sub(sub_bits_of(acc, vals[0]), vals.drop_first())
    }
}

/// The left-associative difference `x0 − x1 − … − xn`; a single argument
/// is negated. Meaningful only for at least one argument.
pub open spec fn diff_bits(vals: Seq<u64>) -> u64 {
    if vals.len() == 1 {
        neg_bits_of(vals[0])
    } else if vals.len() > 1 {
        fold_sub(vals[0], vals.drop_first())
    } else {
        0u64
    }
}

/// Requires every argument of a numeric primitive to be a number and
/// collects the bit patterns; the first non-number yields the
/// *expected number* diagnostic carrying its printed form.
pub open spec fn spec_number_args(args: Seq<SpecExp>) -> Result<Seq<u64>, SpecErr>
    decreases args.len(),
{
    if args.len() == 0 {
        Ok(Seq::empty())
    } else {
        match args[0] {
            SpecExp::Number(b) => match spec_number_args(args.drop_first()) {
                Ok(rest) => Ok(seq![b] + rest),
                Err(e) => Err(e),
            },
            _ => Err(SpecErr::ExpectedNumber(display_of(args[0]))),
        }
    }
}

/// Applies a built-in procedure to fully evaluated arguments. `+` of no
/// arguments is `0`; `-` of no arguments is the *missing required
/// argument* diagnostic.
pub open spec fn spec_apply(p: LangProc, args: Seq<SpecExp>) -> Result<SpecExp, SpecErr> {
    match spec_number_args(args) {
        Err(e) => Err(e),
        Ok(vals) => match p {
            LangProc::Add => Ok(SpecExp::Number(sum_bits(vals))),
            LangProc::Sub => if vals.len() == 0 {
                Err(SpecErr::MissingArgument)
            } else {
                Ok(SpecExp::Number(diff_bits(vals)))
            },
        },
    }
}

/// Evaluates an expression against an environment.
pub open spec fn spec_eval(e: SpecExp, env: Map<Seq<char>, SpecExp>) -> Result<SpecExp, SpecErr>
    decreases e, 1int,
{
    match e {
        SpecExp::Number(b) => Ok(SpecExp::Number(b)),
        SpecExp::Symbol(s) => if env.contains_key(s) {
            Ok(env[s])
        } else {
            Err(SpecErr::UndefinedSymbol(s))
        },
        SpecExp::Func(_) => Err(SpecErr::RawProcedureForm),
        SpecExp::List(es) => if es.len() == 0 {
            Err(SpecErr::EmptyApplication)
        } else {
            match spec_eval(es[0], env) {
                Err(e0) => Err(e0),
                Ok(SpecExp::Func(p)) => match spec_eval_args(es.drop_first(), env) {
                    Err(e1) => Err(e1),
                    Ok(vs) => spec_apply(p, vs),
                },
                Ok(_) => Err(SpecErr::HeadNotCallable),
            }
        },
    }
}

/// Evaluates a sequence of argument forms left to right; the first failure
/// aborts and is the result.
pub open spec fn spec_eval_args(es: Seq<SpecExp>, env: Map<Seq<char>, SpecExp>) -> Result<
    Seq<SpecExp>,
    SpecErr,
>
    decreases es, 0int,
{
    if es.len() == 0 {
        Ok(Seq::empty())
    } else {
        match spec_eval(es[0], env) {
            Err(e) => Err(e),
            Ok(v) => match spec_eval_args(es.drop_first(), env) {
                Err(e) => Err(e),
                Ok(vs) => Ok(seq![v] + vs),
            },
        }
    }
}

/// Collects the bit patterns of a numeric primitive's arguments, or
/// reports the first non-number with its printed form.
fn number_args(args: &Vec<LangExp>) -> (r: Result<Vec<u64>, LangErr>)
    ensures
        (match (r, spec_number_args(view_elems(args@))) {
            (Ok(vals), Ok(svals)) => vals@ == svals,
            (Err(e), Err(se)) => e@ == se,
            _ => false,
        }),
{
    let ghost ves = view_elems(args@);
    proof {
        lemma_view_elems(args@);
    }
    let mut vals: Vec<u64> = Vec::new();
    let mut i: usize = 0;
    proof {
        assert(ves.skip(0) =~= ves);
    }
    while i < args.len()
        invariant
            0 <= i <= args@.len(),
            ves == view_elems(args@),
            ves.len() == args@.len(),
            forall|j: int| 0 <= j < args@.len() ==> #[trigger] ves[j] == args@[j]@,
            (match spec_number_args(ves.skip(i as int)) {
                Ok(rest) => spec_number_args(ves) == Result::<Seq<u64>, SpecErr>::Ok(
                    vals@ + rest,
                ),
                Err(e) => spec_number_args(ves) == Result::<Seq<u64>, SpecErr>::Err(e),
            }),
        decreases args@.len() - i,
    {
        proof {
            assert(ves.skip(i as int)[0] == ves[i as int]);
            assert(ves.skip(i as int).drop_first() =~= ves.skip(i as int + 1));
        }
        match &args[i] {
            LangExp::Number(b) => {
                let ghost prev = vals@;
                vals.push(*b);
                proof {
                    match spec_number_args(ves.skip(i as int + 1)) {
                        Ok(rest) => {
                            assert(prev + (seq![*b] + rest) =~= vals@ + rest);
                        },
                        Err(_) => {},
                    }
                }
            },
            other => {
                let shown = other.to_display_string();
                return Err(LangErr::ExpectedNumber(shown));
            },
        }
        i = i + 1;
    }
    proof {
        assert(ves.skip(args@.len() as int).len() == 0);
        assert(vals@ + Seq::<u64>::empty() =~= vals@);
    }
    Ok(vals)
}

/// Applies a built-in procedure to fully evaluated arguments.
pub fn apply(p: LangProc, args: &Vec<LangExp>) -> (r: Result<LangExp, LangErr>)
    ensures
        (match (r, spec_apply(p, view_elems(args@))) {
            (Ok(v), Ok(sv)) => v@ == sv,
            (Err(e), Err(se)) => e@ == se,
            _ => false,
        }),
{
    let vals = match number_args(args) {
        Ok(vals) => vals,
        Err(e) => {
            return Err(e);
        },
    };
    match p {
        LangProc::Add => {
            if vals.len() == 0 {
                return Ok(LangExp::Number(0));
            }
            let mut acc: u64 = vals[0];
            let mut i: usize = 1;
            proof {
                assert(vals@.drop_first() =~= vals@.skip(1));
            }
            while i < vals.len()
                invariant
                    1 <= i <= vals@.len(),
                    sum_bits(vals@) == fold_add(acc, vals@.skip(i as int)),
                decreases vals@.len() - i,
            {
                proof {
                    assert(vals@.skip(i as int)[0] == vals@[i as int]);
                    assert(vals@.skip(i as int).drop_first() =~= vals@.skip(i as int + 1));
                }
                acc = add_bits(acc, vals[i]);
                i = i + 1;
            }
            proof {
                assert(vals@.skip(vals@.len() as int).len() == 0);
            }
            Ok(LangExp::Number(acc))
        },
        LangProc::Sub => {
            if vals.len() == 0 {
                return Err(LangErr::MissingArgument);
            }
            if vals.len() == 1 {
                return Ok(LangExp::Number(neg_bits(vals[0])));
            }
            let mut acc: u64 = vals[0];
            let mut i: usize = 1;
            proof {
                assert(vals@.drop_first() =~= vals@.skip(1));
            }
            while i < vals.len()
                invariant
                    1 <= i <= vals@.len(),
                    vals@.len() >= 2,
                    diff_bits(vals@) == fold_sub(acc, vals@.skip(i as int)),
                decreases vals@.len() - i,
            {
                proof {
                    assert(vals@.skip(i as int)[0] == vals@[i as int]);
                    assert(vals@.skip(i as int).drop_first() =~= vals@.skip(i as int + 1));
                }
                acc = sub_bits(acc, vals[i]);
                i = i + 1;
            }
            proof {
                assert(vals@.skip(vals@.len() as int).len() == 0);
            }
            Ok(LangExp::Number(acc))
        },
    }
}

/// Evaluates the element of `v` at `i`; splitting this off keeps the
/// recursion structural.
fn eval_at(v: &Vec<LangExp>, i: usize, env: &mut LangEnv) -> (r: Result<LangExp, LangErr>)
    requires
        i < v@.len(),
    ensures
        final(env)@ == old(env)@,
        (match (r, spec_eval(v@[i as int]@, old(env)@)) {
            (Ok(val), Ok(sv)) => val@ == sv,
            (Err(e), Err(se)) => e@ == se,
            _ => false,
        }),
    decreases v, 0int,
{
    eval(&v[i], env)
}

/// Evaluates an expression against the environment. The environment is
/// taken mutably for the sake of future binding forms; this core only
/// reads it and leaves it unchanged.
#[verifier::loop_isolation(false)]
pub fn eval(exp: &LangExp, env: &mut LangEnv) -> (r: Result<LangExp, LangErr>)
    ensures
        final(env)@ == old(env)@,
        (match (r, spec_eval(exp@, old(env)@)) {
            (Ok(val), Ok(sv)) => val@ == sv,
            (Err(e), Err(se)) => e@ == se,
            _ => false,
        }),
    decreases exp, 1int,
{
    match exp {
        LangExp::Number(_) => Ok(exp.duplicate()),
        LangExp::Symbol(s) => match env.lookup(s) {
            Some(v) => Ok(v),
            None => Err(LangErr::UndefinedSymbol(s.clone())),
        },
        LangExp::Func(_) => Err(LangErr::RawProcedureForm),
        LangExp::List(v) => {
            let ghost es = view_elems(v@);
            proof {
                lemma_view_elems(v@);
            }
            if v.len() == 0 {
                return Err(LangErr::EmptyApplication);
            }
            let head = match eval_at(v, 0, env) {
                Ok(h) => h,
                Err(e) => {
                    return Err(e);
                },
            };
            let p = match head {
                LangExp::Func(p) => p,
                _ => {
                    return Err(LangErr::HeadNotCallable);
                },
            };
            let mut args: Vec<LangExp> = Vec::new();
            let mut i: usize = 1;
            proof {
                assert(es.drop_first() =~= es.skip(1));
                assert(view_elems(args@) =~= Seq::<SpecExp>::empty());
            }
            while i < v.len()
                invariant
                    1 <= i <= v@.len(),
                    es == view_elems(v@),
                    es.len() == v@.len(),
                    forall|j: int| 0 <= j < v@.len() ==> #[trigger] es[j] == v@[j]@,
                    env@ == old(env)@,
                    (match spec_eval_args(es.skip(i as int), env@) {
                        Ok(vs) => spec_eval_args(es.skip(1), env@) == Result::<
                            Seq<SpecExp>,
                            SpecErr,
                        >::Ok(view_elems(args@) + vs),
                        Err(e) => spec_eval_args(es.skip(1), env@) == Result::<
                            Seq<SpecExp>,
                            SpecErr,
                        >::Err(e),
                    }),
                decreases v@.len() - i,
            {
                proof {
                    assert(es.skip(i as int)[0] == es[i as int]);
                    assert(es.skip(i as int).drop_first() =~= es.skip(i as int + 1));
                    assert(es.drop_first() =~= es.skip(1));
                }
                let val = match eval_at(v, i, env) {
                    Ok(val) => val,
                    Err(e) => {
                        return Err(e);
                    },
                };
                let ghost prev = args@;
                args.push(val);
                proof {
                    lemma_view_elems(prev);
                    lemma_view_elems(args@);
                    assert(view_elems(args@) =~= view_elems(prev).push(args@.last()@));
                    match spec_eval_args(es.skip(i as int + 1), env@) {
                        Ok(vs) => {
                            assert(view_elems(prev) + (seq![args@.last()@] + vs) =~= view_elems(
                                args@,
                            ) + vs);
                        },
                        Err(_) => {},
                    }
                }
                i = i + 1;
            }
            proof {
                assert(es.skip(v@.len() as int).len() == 0);
                assert(view_elems(args@) + Seq::<SpecExp>::empty() =~= view_elems(args@));
            }
            apply(p, &args)
        },
    }
}

/// The parse of one expression from a source line followed by its
/// evaluation; trailing tokens past the first expression are ignored.
pub open spec fn spec_parse_eval(s: Seq<char>, env: Map<Seq<char>, SpecExp>) -> Result<
    SpecExp,
    SpecErr,
> {
    match spec_parse(spec_tokenize(s)) {
        Err(e) => Err(e),
        Ok((e, _)) => spec_eval(e, env),
    }
}

/// Lexes, parses and evaluates one source line against the environment.
pub fn parse_eval(exp: String, env: &mut LangEnv) -> (r: Result<LangExp, LangErr>)
    ensures
        final(env)@ == old(env)@,
        (match (r, spec_parse_eval(exp@, old(env)@)) {
            (Ok(val), Ok(sv)) => val@ == sv,
            (Err(e), Err(se)) => e@ == se,
            _ => false,
        }),
{
    let ghost src = exp@;
    let tokens = tokenize(exp);
    proof {
        assert(token_views(tokens@) == spec_tokenize(src));
        assert(token_views(tokens@).skip(0) =~= token_views(tokens@));
    }
    let parsed = match parse(&tokens, 0) {
        Ok((e, _rest)) => e,
        Err(e) => {
            return Err(e);
        },
    };
    eval(&parsed, env)
}

} // verus!
