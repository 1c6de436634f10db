//! The canonical, re-parseable source form: the tokens of a tree joined
//! with single spaces. Unlike the comma-separated display form, this
//! print is proved to be a right inverse of lexing and parsing for
//! well-formed trees of numbers, symbols and lists.

use vstd::prelude::*;
use vstd::string::StringExecFns;
use crate::exp::{lemma_view_elems, view_elems, LangExp, SpecExp};
use crate::lexer::{flush, is_paren, is_space, spec_tokenize, tok_rec};
use crate::parser::{
    atom_of, lemma_spec_parse_step, lemma_spec_read_seq_step, parse_fuel, read_seq_fuel,
    spec_parse, spec_read_seq, SpecParsed, SpecReadSeq,
};
use crate::numeric::{
    decimal_of, is_number_token, num_run, num_step, number_to_string, number_value_of,
};

verus! {

/// The tokens of an expression's canonical source form. A procedure has
/// no source syntax and contributes no tokens.
pub open spec fn spec_tokens_of(e: SpecExp) -> Seq<Seq<char>>
    decreases e, 1int,
{
    match e {
        SpecExp::Symbol(s) => seq![s],
        SpecExp::Number(b) => seq![decimal_of(b)],
        SpecExp::List(es) => seq![seq!['(']] + tokens_of_elems(es) + seq![seq![')']],
        SpecExp::Func(_) => Seq::empty(),
    }
}

/// The concatenated tokens of a list's elements.
pub open spec fn tokens_of_elems(es: Seq<SpecExp>) -> Seq<Seq<char>>
    decreases es, 0int,
{
    if es.len() == 0 {
        Seq::empty()
    } else {
        spec_tokens_of(es[0]) + tokens_of_elems(es.drop_first())
    }
}

/// Tokens joined with single spaces.
pub open spec fn join_spaced(ts: Seq<Seq<char>>) -> Seq<char>
    decreases ts.len(),
{
    if ts.len() == 0 {
        Seq::empty()
    } else if ts.len() == 1 {
        ts[0]
    } else {
        ts[0] + seq![' '] + join_spaced(ts.drop_first())
    }
}

/// A character that neither separates tokens nor is structural.
pub open spec fn plain_char(c: char) -> bool {
    !is_space(c) && !is_paren(c)
}

/// A non-empty atom token of plain characters.
pub open spec fn plain_token(t: Seq<char>) -> bool {
    t.len() > 0 && forall|i: int| 0 <= i < t.len() ==> plain_char(#[trigger] t[i])
}

/// A token the lexer reproduces: a lone parenthesis or a plain atom.
pub open spec fn good_token(t: Seq<char>) -> bool {
    t == seq!['('] || t == seq![')'] || plain_token(t)
}

/// A tree without procedure values; only such trees have a source form.
pub open spec fn no_procs(e: SpecExp) -> bool
    decreases e, 1int,
{
    match e {
        SpecExp::Symbol(_) => true,
        SpecExp::Number(_) => true,
        SpecExp::List(es) => no_procs_elems(es),
        SpecExp::Func(_) => false,
    }
}

/// Every element of the sequence is without procedure values.
pub open spec fn no_procs_elems(es: Seq<SpecExp>) -> bool
    decreases es, 0int,
{
    if es.len() == 0 {
        true
    } else {
        no_procs(es[0]) && no_procs_elems(es.drop_first())
    }
}

/// A tree whose canonical print re-parses to it: no procedures; symbol
/// text that is a plain atom and does not spell a number; numbers whose
/// decimal rendering satisfies the numeric grammar and reads back to the
/// same bit pattern.
pub open spec fn wf_tree(e: SpecExp) -> bool
    decreases e, 1int,
{
    match e {
        SpecExp::Symbol(s) => plain_token(s) && !is_number_token(s),
        SpecExp::Number(b) => is_number_token(decimal_of(b)) && number_value_of(decimal_of(b))
            == b,
        SpecExp::List(es) => wf_elems(es),
        SpecExp::Func(_) => false,
    }
}

/// Every element of the sequence is well formed.
pub open spec fn wf_elems(es: Seq<SpecExp>) -> bool
    decreases es, 0int,
{
    if es.len() == 0 {
        true
    } else {
        wf_tree(es[0]) && wf_elems(es.drop_first())
    }
}

proof fn lemma_no_procs_elems_index(es: Seq<SpecExp>, i: int)
    requires
        no_procs_elems(es),
        0 <= i < es.len(),
    ensures
        no_procs(es[i]),
    decreases i,
{
    if i > 0 {
        lemma_no_procs_elems_index(es.drop_first(), i - 1);
        assert(es.drop_first()[i - 1] == es[i]);
    }
}

/// The run of the numeric recognizer never leaves the rejecting state.
proof fn lemma_num_run_stuck(s: Seq<char>)
    ensures
        num_run(-1, s) == -1,
    decreases s.len(),
{
    if s.len() > 0 {
        assert(num_step(-1, s[0]) == -1);
        lemma_num_run_stuck(s.drop_first());
    }
}

/// A string the numeric recognizer does not reject consists of plain
/// characters: signs, digits, dots and exponent markers.
proof fn lemma_num_run_plain(st: int, s: Seq<char>)
    requires
        num_run(st, s) != -1,
    ensures
        forall|i: int| 0 <= i < s.len() ==> plain_char(#[trigger] s[i]),
    decreases s.len(),
{
    if s.len() > 0 {
        if num_step(st, s[0]) == -1 {
            lemma_num_run_stuck(s.drop_first());
        }
        assert(num_step(st, s[0]) != -1);
        assert(plain_char(s[0]));
        lemma_num_run_plain(num_step(st, s[0]), s.drop_first());
        assert forall|i: int| 0 <= i < s.len() implies plain_char(#[trigger] s[i]) by {
            if i > 0 {
                assert(s.drop_first()[i - 1] == s[i]);
            }
        }
    }
}

/// A token that spells a number is a plain atom token.
proof fn lemma_number_token_plain(t: Seq<char>)
    requires
        is_number_token(t),
    ensures
        plain_token(t),
{
    lemma_num_run_plain(0, t);
    if t.len() == 0 {
        assert(num_run(0, t) == 0);
    }
}

/// Prepending a run of plain characters to the input extends the atom in
/// progress.
proof fn lemma_tok_rec_plain(t: Seq<char>, s: Seq<char>, cur: Seq<char>)
    requires
        forall|i: int| 0 <= i < t.len() ==> plain_char(#[trigger] t[i]),
    ensures
        tok_rec(t + s, cur) == tok_rec(s, cur + t),
    decreases t.len(),
{
    if t.len() == 0 {
        assert(t + s =~= s);
        assert(cur + t =~= cur);
    } else {
        assert((t + s)[0] == t[0]);
        assert(plain_char(t[0]));
        assert((t + s).drop_first() =~= t.drop_first() + s);
        assert forall|i: int| 0 <= i < t.drop_first().len() implies plain_char(
            #[trigger] t.drop_first()[i],
        ) by {
            assert(t.drop_first()[i] == t[i + 1]);
        }
        lemma_tok_rec_plain(t.drop_first(), s, cur.push(t[0]));
        assert(cur.push(t[0]) + t.drop_first() =~= cur + t);
    }
}

/// The lexer reproduces a sequence of good tokens joined with spaces.
pub proof fn lemma_tokenize_join(ts: Seq<Seq<char>>)
    requires
        forall|i: int| 0 <= i < ts.len() ==> good_token(#[trigger] ts[i]),
    ensures
        spec_tokenize(join_spaced(ts)) == ts,
    decreases ts.len(),
{
    reveal_with_fuel(tok_rec, 3);
    if ts.len() == 0 {
        assert(spec_tokenize(join_spaced(ts)) =~= ts);
    } else {
        let t = ts[0];
        assert(good_token(t));
        let rest = ts.drop_first();
        assert forall|i: int| 0 <= i < rest.len() implies good_token(#[trigger] rest[i]) by {
            assert(rest[i] == ts[i + 1]);
        }
        if ts.len() == 1 {
            assert(join_spaced(ts) == t);
            if t == seq!['('] || t == seq![')'] {
                assert(t[0] == '(' || t[0] == ')');
                assert(t.drop_first() =~= Seq::<char>::empty());
                assert(tok_rec(t, Seq::empty()) =~= seq![t]);
                assert(spec_tokenize(join_spaced(ts)) =~= ts);
            } else {
                assert(plain_token(t));
                lemma_tok_rec_plain(t, Seq::empty(), Seq::empty());
                assert(t + Seq::<char>::empty() =~= t);
                assert(Seq::<char>::empty() + t =~= t);
                assert(tok_rec(t, Seq::empty()) == tok_rec(
                    Seq::<char>::empty(),
                    Seq::<char>::empty() + t,
                ));
                assert(tok_rec(Seq::<char>::empty(), t) == flush(t));
                assert(flush(t) =~= seq![t]);
                assert(ts =~= seq![t]);
                assert(spec_tokenize(join_spaced(ts)) =~= ts);
            }
        } else {
            let tail = seq![' '] + join_spaced(rest);
            assert(join_spaced(ts) =~= t + tail);
            lemma_tokenize_join(rest);
            assert(tail[0] == ' ');
            assert(tail.drop_first() =~= join_spaced(rest));
            if t == seq!['('] || t == seq![')'] {
                assert((t + tail)[0] == t[0]);
                assert(t[0] == '(' || t[0] == ')');
                assert((t + tail).drop_first() =~= tail);
                assert(tok_rec(tail, Seq::empty()) =~= flush(Seq::empty()) + tok_rec(
                    join_spaced(rest),
                    Seq::empty(),
                ));
                assert(seq![t] =~= seq![seq![(t + tail)[0]]]);
                assert(spec_tokenize(join_spaced(ts)) =~= seq![t] + rest);
                assert(seq![t] + rest =~= ts);
            } else {
                lemma_tok_rec_plain(t, tail, Seq::empty());
                assert(Seq::<char>::empty() + t =~= t);
                assert(tok_rec(tail, t) =~= flush(t) + tok_rec(join_spaced(rest), Seq::empty()));
                assert(spec_tokenize(join_spaced(ts)) =~= seq![t] + rest);
                assert(seq![t] + rest =~= ts);
            }
        }
    }
}

proof fn lemma_wf_elems_split(es: Seq<SpecExp>)
    requires
        wf_elems(es),
        es.len() > 0,
    ensures
        wf_tree(es[0]),
        wf_elems(es.drop_first()),
{
}

/// A well-formed tree has at least one token, and its first token is
/// never a closing parenthesis.
proof fn lemma_first_token(e: SpecExp)
    requires
        wf_tree(e),
    ensures
        spec_tokens_of(e).len() > 0,
        spec_tokens_of(e)[0] != seq![')'],
{
    match e {
        SpecExp::Symbol(s) => {
            assert(plain_char(s[0]));
            assert(seq![')'][0] == ')');
            assert(s != seq![')']);
        },
        SpecExp::Number(b) => {
            let t = decimal_of(b);
            lemma_number_token_plain(t);
            assert(plain_char(t[0]));
            assert(seq![')'][0] == ')');
            assert(t != seq![')']);
        },
        SpecExp::List(es) => {
            assert(spec_tokens_of(e)[0] == seq!['(']);
            assert(seq!['('][0] == '(');
            assert(seq![')'][0] == ')');
        },
        SpecExp::Func(_) => {
            assert(false);
        },
    }
}

/// Parsing the canonical tokens of a well-formed tree, followed by any
/// remaining tokens, yields exactly that tree and leaves the remainder.
pub proof fn lemma_parse_tokens(e: SpecExp, rest: Seq<Seq<char>>)
    requires
        wf_tree(e),
    ensures
        spec_parse(spec_tokens_of(e) + rest) == SpecParsed::Ok((e, rest)),
    decreases e, 1int,
{
    let ts = spec_tokens_of(e) + rest;
    lemma_spec_parse_step(ts);
    match e {
        SpecExp::Symbol(s) => {
            assert(ts[0] == s);
            assert(plain_char(s[0]));
            assert(seq!['('][0] == '(');
            assert(seq![')'][0] == ')');
            assert(s != seq!['('] && s != seq![')']);
            assert(ts.drop_first() =~= rest);
            assert(atom_of(s) == e);
        },
        SpecExp::Number(b) => {
            let t = decimal_of(b);
            lemma_number_token_plain(t);
            assert(ts[0] == t);
            assert(plain_char(t[0]));
            assert(seq!['('][0] == '(');
            assert(seq![')'][0] == ')');
            assert(t != seq!['('] && t != seq![')']);
            assert(ts.drop_first() =~= rest);
            assert(atom_of(t) == e);
        },
        SpecExp::List(es) => {
            assert(ts[0] == seq!['(']);
            assert(ts.drop_first() =~= tokens_of_elems(es) + seq![seq![')']] + rest);
            lemma_read_elems(es, rest);
        },
        SpecExp::Func(_) => {
            assert(false);
        },
    }
}

/// Reading a list body over the canonical tokens of its elements,
/// followed by the closing parenthesis and any remainder, yields exactly
/// those elements.
proof fn lemma_read_elems(es: Seq<SpecExp>, rest: Seq<Seq<char>>)
    requires
        wf_elems(es),
    ensures
        spec_read_seq(tokens_of_elems(es) + seq![seq![')']] + rest) == SpecReadSeq::Ok(
            (es, rest),
        ),
    decreases es, 0int,
{
    let close: Seq<Seq<char>> = seq![seq![')']];
    let ts = tokens_of_elems(es) + close + rest;
    lemma_spec_read_seq_step(ts);
    if es.len() == 0 {
        assert(ts =~= close + rest);
        assert(ts[0] == seq![')']);
        assert(ts.drop_first() =~= rest);
        assert(es =~= Seq::<SpecExp>::empty());
    } else {
        lemma_wf_elems_split(es);
        let e0 = es[0];
        let rest_ts = tokens_of_elems(es.drop_first()) + close + rest;
        assert(ts =~= spec_tokens_of(e0) + rest_ts);
        lemma_first_token(e0);
        assert(ts[0] == spec_tokens_of(e0)[0]);
        assert(ts[0] != seq![')']);
        lemma_parse_tokens(e0, rest_ts);
        assert(spec_parse(ts) == SpecParsed::Ok((e0, rest_ts)));
        lemma_read_elems(es.drop_first(), rest);
        assert(seq![e0] + es.drop_first() =~= es);
    }
}

/// Every canonical token of a well-formed tree is one the lexer
/// reproduces.
proof fn lemma_tokens_good(e: SpecExp)
    requires
        wf_tree(e),
    ensures
        forall|i: int|
            0 <= i < spec_tokens_of(e).len() ==> good_token(#[trigger] spec_tokens_of(e)[i]),
    decreases e, 1int,
{
    match e {
        SpecExp::Symbol(s) => {
            assert(spec_tokens_of(e)[0] == s);
        },
        SpecExp::Number(b) => {
            lemma_number_token_plain(decimal_of(b));
            assert(spec_tokens_of(e)[0] == decimal_of(b));
        },
        SpecExp::List(es) => {
            lemma_tokens_good_elems(es);
            let mid = tokens_of_elems(es);
            assert forall|i: int| 0 <= i < spec_tokens_of(e).len() implies good_token(
                #[trigger] spec_tokens_of(e)[i],
            ) by {
                if i == 0 {
                    assert(spec_tokens_of(e)[0] == seq!['(']);
                } else if i < 1 + mid.len() {
                    assert(spec_tokens_of(e)[i] == mid[i - 1]);
                } else {
                    assert(spec_tokens_of(e)[i] == seq![')']);
                }
            }
        },
        SpecExp::Func(_) => {
            assert(false);
        },
    }
}

proof fn lemma_tokens_good_elems(es: Seq<SpecExp>)
    requires
        wf_elems(es),
    ensures
        forall|i: int|
            0 <= i < tokens_of_elems(es).len() ==> good_token(#[trigger] tokens_of_elems(es)[i]),
    decreases es, 0int,
{
    if es.len() > 0 {
        lemma_wf_elems_split(es);
        lemma_tokens_good(es[0]);
        lemma_tokens_good_elems(es.drop_first());
        let head = spec_tokens_of(es[0]);
        assert forall|i: int| 0 <= i < tokens_of_elems(es).len() implies good_token(
            #[trigger] tokens_of_elems(es)[i],
        ) by {
            if i < head.len() {
                assert(tokens_of_elems(es)[i] == head[i]);
            } else {
                assert(tokens_of_elems(es)[i] == tokens_of_elems(es.drop_first())[i - head.len()]);
            }
        }
    }
}

/// Parse is a left inverse of the canonical space-separated print: lexing
/// and re-parsing the printed form of a well-formed tree of numbers,
/// symbols and lists yields an equal tree, with no tokens left over.
pub proof fn lemma_parse_print_round_trip(e: SpecExp)
    requires
        wf_tree(e),
    ensures
        spec_parse(spec_tokenize(join_spaced(spec_tokens_of(e)))) == SpecParsed::Ok(
            (e, Seq::<Seq<char>>::empty()),
        ),
{
    lemma_tokens_good(e);
    lemma_tokenize_join(spec_tokens_of(e));
    lemma_parse_tokens(e, Seq::empty());
    assert(spec_tokens_of(e) + Seq::<Seq<char>>::empty() =~= spec_tokens_of(e));
}

/// Appending one element appends its tokens.
proof fn lemma_tokens_of_elems_snoc(es: Seq<SpecExp>, x: SpecExp)
    ensures
        tokens_of_elems(es.push(x)) =~= tokens_of_elems(es) + spec_tokens_of(x),
    decreases es.len(),
{
    reveal_with_fuel(tokens_of_elems, 2);
    if es.len() == 0 {
        assert(es.push(x)[0] == x);
        assert(es.push(x).drop_first() =~= Seq::<SpecExp>::empty());
        assert(tokens_of_elems(es) =~= Seq::<Seq<char>>::empty());
        assert(spec_tokens_of(x) + Seq::<Seq<char>>::empty() =~= spec_tokens_of(x));
        assert(Seq::<Seq<char>>::empty() + spec_tokens_of(x) =~= spec_tokens_of(x));
    } else {
        assert(es.push(x)[0] == es[0]);
        assert(es.push(x).drop_first() =~= es.drop_first().push(x));
        lemma_tokens_of_elems_snoc(es.drop_first(), x);
    }
}

/// Joining a split token sequence joins the halves around one space.
proof fn lemma_join_append(a: Seq<Seq<char>>, b: Seq<Seq<char>>)
    requires
        a.len() > 0,
        b.len() > 0,
    ensures
        join_spaced(a + b) =~= join_spaced(a) + seq![' '] + join_spaced(b),
    decreases a.len(),
{
    assert((a + b)[0] == a[0]);
    assert((a + b).drop_first() =~= a.drop_first() + b);
    if a.len() == 1 {
        assert(a.drop_first() + b =~= b);
    } else {
        lemma_join_append(a.drop_first(), b);
    }
}

/// A tree without procedures prints at least one token.
proof fn lemma_tokens_nonempty(e: SpecExp)
    requires
        no_procs(e),
    ensures
        spec_tokens_of(e).len() > 0,
{
}

impl LangExp {
    /// Renders the canonical source form: the tree's tokens joined with
    /// single spaces. Procedures have no source syntax.
    pub fn to_lisp_string(&self) -> (r: String)
        requires
            no_procs(self@),
        ensures
            r@ == join_spaced(spec_tokens_of(self@)),
        decreases self,
    {
        match self {
            LangExp::Symbol(s) => s.clone(),
            LangExp::Number(b) => number_to_string(*b),
            LangExp::List(v) => lisp_list_string(v),
            LangExp::Func(_) => String::new(),
        }
    }
}

/// Renders a list: `(`, each element prefixed by a space, a space and `)`.
fn lisp_list_string(v: &Vec<LangExp>) -> (r: String)
    requires
        no_procs_elems(view_elems(v@)),
    ensures
        r@ == join_spaced(seq![seq!['(']] + tokens_of_elems(view_elems(v@)) + seq![seq![')']]),
    decreases v,
{
    let ghost es = view_elems(v@);
    proof {
        lemma_view_elems(v@);
    }
    let mut out = String::from_str("(");
    proof {
        reveal_strlit("(");
        assert("("@ =~= seq!['(']);
        assert(es.take(0) =~= Seq::<SpecExp>::empty());
        assert(seq![seq!['(']] + tokens_of_elems(es.take(0)) =~= seq![seq!['(']]);
    }
    let mut i: usize = 0;
    while i < v.len()
        invariant
            0 <= i <= v@.len(),
            es == view_elems(v@),
            es.len() == v@.len(),
            forall|j: int| 0 <= j < v@.len() ==> #[trigger] es[j] == v@[j]@,
            no_procs_elems(es),
            out@ == join_spaced(seq![seq!['(']] + tokens_of_elems(es.take(i as int))),
        decreases v@.len() - i,
    {
        proof {
            lemma_no_procs_elems_index(es, i as int);
        }
        out.append(" ");
        let piece = v[i].to_lisp_string();
        out.append(piece.as_str());
        proof {
            reveal_strlit(" ");
            assert(" "@ =~= seq![' ']);
            lemma_tokens_nonempty(es[i as int]);
            let a = seq![seq!['(']] + tokens_of_elems(es.take(i as int));
            lemma_join_append(a, spec_tokens_of(es[i as int]));
            assert(es.take(i as int).push(es[i as int]) =~= es.take(i as int + 1));
            lemma_tokens_of_elems_snoc(es.take(i as int), es[i as int]);
            assert(a + spec_tokens_of(es[i as int]) =~= seq![seq!['(']] + tokens_of_elems(
                es.take(i as int + 1),
            ));
            assert(out@ =~= join_spaced(
                seq![seq!['(']] + tokens_of_elems(es.take(i as int + 1)),
            ));
        }
        i = i + 1;
    }
    out.append(" )");
    proof {
        reveal_strlit(" )");
        assert(" )"@ =~= seq![' ', ')']);
        assert(es.take(v@.len() as int) =~= es);
        let a = seq![seq!['(']] + tokens_of_elems(es);
        lemma_join_append(a, seq![seq![')']]);
        assert(a + seq![seq![')']] =~= seq![seq!['(']] + tokens_of_elems(es) + seq![seq![')']]);
        assert(join_spaced(a) + seq![' '] + join_spaced(seq![seq![')']]) =~= join_spaced(a)
            + seq![' ', ')']);
        assert(out@ =~= join_spaced(
            seq![seq!['(']] + tokens_of_elems(es) + seq![seq![')']],
        ));
    }
    out
}

proof fn lemma_parse_fuel_no_procs(ts: Seq<Seq<char>>, fuel: nat)
    ensures
        (match parse_fuel(ts, fuel) {
            Some(Ok((e, _))) => no_procs(e),
            _ => true,
        }),
    decreases fuel, 0int,
{
    if ts.len() > 0 && ts[0] == seq!['('] && fuel > 0 {
        lemma_read_seq_fuel_no_procs(ts.drop_first(), (fuel - 1) as nat);
    }
}

proof fn lemma_read_seq_fuel_no_procs(ts: Seq<Seq<char>>, fuel: nat)
    ensures
        (match read_seq_fuel(ts, fuel) {
            Some(Ok((es, _))) => no_procs_elems(es),
            _ => true,
        }),
    decreases fuel, 1int,
{
    if ts.len() > 0 && ts[0] != seq![')'] {
        lemma_parse_fuel_no_procs(ts, fuel);
        match parse_fuel(ts, fuel) {
            Some(Ok((e, rest))) => {
                if fuel > 0 {
                    lemma_read_seq_fuel_no_procs(rest, (fuel - 1) as nat);
                    match read_seq_fuel(rest, (fuel - 1) as nat) {
                        Some(Ok((es, _))) => {
                            assert((seq![e] + es)[0] == e);
                            assert((seq![e] + es).drop_first() =~= es);
                        },
                        _ => {},
                    }
                }
            },
            _ => {},
        }
    }
}

/// Procedures cannot be written as source syntax: a parsed tree never
/// contains one, so it always has a canonical source form.
pub proof fn lemma_parse_no_procs(ts: Seq<Seq<char>>)
    ensures
        (match spec_parse(ts) {
            Ok((e, _)) => no_procs(e),
            Err(_) => true,
        }),
{
    lemma_parse_fuel_no_procs(ts, ts.len());
}

} // verus!
