//! General laws of the core, stated over the models and proved for all
//! inputs: evaluation of literals and unbound symbols, the arithmetic of
//! the built-ins, and the observability of the left-to-right argument
//! order.

use vstd::prelude::*;
use crate::env::default_env_map;
use crate::eval::{
    diff_bits, spec_apply, spec_eval, spec_eval_args, spec_number_args, sum_bits,
};
use crate::exp::{message_of, LangProc, SpecErr, SpecExp};

verus! {

/// Evaluating a number returns an expression equal to itself, in any
/// environment.
pub proof fn lemma_eval_number(b: u64, env: Map<Seq<char>, SpecExp>)
    ensures
        spec_eval(SpecExp::Number(b), env) == Result::<SpecExp, SpecErr>::Ok(SpecExp::Number(b)),
{
}

/// Evaluating a symbol with no binding yields the undefined-symbol error,
/// and that error's message ends with the symbol's exact text.
pub proof fn lemma_eval_undefined_symbol(s: Seq<char>, env: Map<Seq<char>, SpecExp>)
    requires
        !env.contains_key(s),
    ensures
        spec_eval(SpecExp::Symbol(s), env) == Result::<SpecExp, SpecErr>::Err(
            SpecErr::UndefinedSymbol(s),
        ),
        message_of(SpecErr::UndefinedSymbol(s)) == "undefined symbol "@ + s,
{
}

/// The argument forms `x1 … xn` as number literals.
pub open spec fn numbers(vs: Seq<u64>) -> Seq<SpecExp> {
    vs.map_values(|b: u64| SpecExp::Number(b))
}

proof fn lemma_number_args_numbers(vs: Seq<u64>)
    ensures
        spec_number_args(numbers(vs)) == Result::<Seq<u64>, SpecErr>::Ok(vs),
    decreases vs.len(),
{
    assert(numbers(vs).len() == vs.len());
    if vs.len() == 0 {
        assert(vs =~= Seq::<u64>::empty());
        assert(numbers(vs) =~= Seq::<SpecExp>::empty());
    } else {
        assert(numbers(vs)[0] == SpecExp::Number(vs[0]));
        assert(numbers(vs).drop_first() =~= numbers(vs.drop_first()));
        lemma_number_args_numbers(vs.drop_first());
        assert(seq![vs[0]] + vs.drop_first() =~= vs);
    }
}

proof fn lemma_eval_args_numbers(vs: Seq<u64>, env: Map<Seq<char>, SpecExp>)
    ensures
        spec_eval_args(numbers(vs), env) == Result::<Seq<SpecExp>, SpecErr>::Ok(numbers(vs)),
    decreases vs.len(),
{
    assert(numbers(vs).len() == vs.len());
    if vs.len() == 0 {
        assert(numbers(vs) =~= Seq::<SpecExp>::empty());
    } else {
        assert(numbers(vs)[0] == SpecExp::Number(vs[0]));
        assert(spec_eval(SpecExp::Number(vs[0]), env) == Result::<SpecExp, SpecErr>::Ok(
            SpecExp::Number(vs[0]),
        ));
        assert(numbers(vs).drop_first() =~= numbers(vs.drop_first()));
        lemma_eval_args_numbers(vs.drop_first(), env);
        assert(seq![numbers(vs)[0]] + numbers(vs.drop_first()) =~= numbers(vs));
    }
}

/// In the default environment, `(+ x1 … xn)` over number literals
/// evaluates to their floating-point sum, folded from the left; with no
/// arguments it evaluates to `0`.
pub proof fn lemma_eval_add(vs: Seq<u64>)
    ensures
        spec_eval(
            SpecExp::List(seq![SpecExp::Symbol("+"@)] + numbers(vs)),
            default_env_map(),
        ) == Result::<SpecExp, SpecErr>::Ok(SpecExp::Number(sum_bits(vs))),
{
    reveal_strlit("+");
    reveal_strlit("-");
    let env = default_env_map();
    let es = seq![SpecExp::Symbol("+"@)] + numbers(vs);
    assert(es.len() == 1 + vs.len());
    assert("+"@.len() == 1 && "+"@[0] == '+');
    assert("-"@.len() == 1 && "-"@[0] == '-');
    assert(es[0] == SpecExp::Symbol("+"@));
    assert(env.contains_key("+"@));
    assert(env["+"@] == SpecExp::Func(LangProc::Add));
    assert(es.drop_first() =~= numbers(vs));
    assert(spec_eval(es[0], env) == Result::<SpecExp, SpecErr>::Ok(
        SpecExp::Func(LangProc::Add),
    ));
    lemma_eval_args_numbers(vs, env);
    lemma_number_args_numbers(vs);
    assert(spec_eval_args(es.drop_first(), env) == Result::<Seq<SpecExp>, SpecErr>::Ok(
        numbers(vs),
    ));
    assert(spec_apply(LangProc::Add, numbers(vs)) == Result::<SpecExp, SpecErr>::Ok(
        SpecExp::Number(sum_bits(vs)),
    ));
}

/// In the default environment, `(- )` is the missing-argument error,
/// `(- x)` is the negation of `x`, and `(- x0 x1 … xn)` is the
/// left-associative difference.
pub proof fn lemma_eval_sub(vs: Seq<u64>)
    ensures
        vs.len() == 0 ==> spec_eval(
            SpecExp::List(seq![SpecExp::Symbol("-"@)] + numbers(vs)),
            default_env_map(),
        ) == Result::<SpecExp, SpecErr>::Err(SpecErr::MissingArgument),
        vs.len() >= 1 ==> spec_eval(
            SpecExp::List(seq![SpecExp::Symbol("-"@)] + numbers(vs)),
            default_env_map(),
        ) == Result::<SpecExp, SpecErr>::Ok(SpecExp::Number(diff_bits(vs))),
{
    reveal_strlit("+");
    reveal_strlit("-");
    let env = default_env_map();
    let es = seq![SpecExp::Symbol("-"@)] + numbers(vs);
    assert(es.len() == 1 + vs.len());
    assert("+"@.len() == 1 && "+"@[0] == '+');
    assert("-"@.len() == 1 && "-"@[0] == '-');
    assert(es[0] == SpecExp::Symbol("-"@));
    assert(env.contains_key("-"@));
    assert(env["-"@] == SpecExp::Func(LangProc::Sub));
    assert(es.drop_first() =~= numbers(vs));
    assert(spec_eval(es[0], env) == Result::<SpecExp, SpecErr>::Ok(
        SpecExp::Func(LangProc::Sub),
    ));
    lemma_eval_args_numbers(vs, env);
    lemma_number_args_numbers(vs);
    assert(spec_eval_args(es.drop_first(), env) == Result::<Seq<SpecExp>, SpecErr>::Ok(
        numbers(vs),
    ));
}

/// Argument evaluation order is observable: when every argument before
/// position `k` evaluates successfully and argument `k` fails, the
/// argument list as a whole fails with exactly that error, whatever
/// stands after position `k`.
pub proof fn lemma_eval_args_first_error(
    es: Seq<SpecExp>,
    env: Map<Seq<char>, SpecExp>,
    k: int,
    e: SpecErr,
)
    requires
        0 <= k < es.len(),
        forall|j: int| 0 <= j < k ==> #[trigger] spec_eval(es[j], env) is Ok,
        spec_eval(es[k], env) == Result::<SpecExp, SpecErr>::Err(e),
    ensures
        spec_eval_args(es, env) == Result::<Seq<SpecExp>, SpecErr>::Err(e),
    decreases k,
{
    if k == 0 {
    } else {
        assert(spec_eval(es[0], env) is Ok);
        assert forall|j: int| 0 <= j < k - 1 implies #[trigger] spec_eval(
            es.drop_first()[j],
            env,
        ) is Ok by {
            assert(es.drop_first()[j] == es[j + 1]);
            assert(spec_eval(es[j + 1], env) is Ok);
        }
        assert(es.drop_first()[k - 1] == es[k]);
        lemma_eval_args_first_error(es.drop_first(), env, k - 1, e);
    }
}

} // verus!

