//! The reader. A recursive-descent parser consumes a token sequence and
//! produces one expression together with the position of the remaining,
//! unconsumed tokens, or a diagnostic: *unexpected end of input* when a
//! token is required and none is left, *unexpected closing parenthesis*
//! when `)` appears where an expression was expected.

use vstd::prelude::*;
use vstd::string::StrSliceExecFns;
use crate::exp::{LangErr, LangExp, SpecErr, SpecExp, view_elems, lemma_view_elems};
use crate::lexer::token_views;
use crate::numeric::{check_number_token, is_number_token, number_value, number_value_of};

verus! {

/// What parsing one expression yields: the expression and the remaining
/// tokens, or a diagnostic.
pub type SpecParsed = Result<(SpecExp, Seq<Seq<char>>), SpecErr>;

/// What reading a list body yields: the elements and the tokens past the
/// closing parenthesis, or a diagnostic.
pub type SpecReadSeq = Result<(Seq<SpecExp>, Seq<Seq<char>>), SpecErr>;

/// The reading of an atom token: a number when it satisfies the strict
/// decimal grammar, otherwise a symbol carrying the token text verbatim.
pub open spec fn atom_of(t: Seq<char>) -> SpecExp {
    if is_number_token(t) {
        SpecExp::Number(number_value_of(t))
    } else {
        SpecExp::Symbol(t)
    }
}

/// Parses one expression from `ts`, spending `fuel` on recursion into list
/// bodies; `None` means the fuel ran out, which [`lemma_parse_fuel`] shows
/// cannot happen once `fuel` covers the token count.
pub open spec fn parse_fuel(ts: Seq<Seq<char>>, fuel: nat) -> Option<SpecParsed>
    decreases fuel, 0int,
{
    if ts.len() == 0 {
        Some(Err(SpecErr::UnexpectedEndOfInput))
    } else {
        let t = ts[0];
        let rest = ts.drop_first();
        if t == seq!['('] {
            if fuel == 0 {
                None
            } else {
                match read_seq_fuel(rest, (fuel - 1) as nat) {
                    None => None,
                    Some(Err(e)) => Some(Err(e)),
                    Some(Ok((es, rest2))) => Some(Ok((SpecExp::List(es), rest2))),
                }
            }
        } else if t == seq![')'] {
            Some(Err(SpecErr::UnexpectedCloseParen))
        } else {
            Some(Ok((atom_of(t), rest)))
        }
    }
}

/// Reads list elements from `ts` until a closing parenthesis, which is
/// consumed.
pub open spec fn read_seq_fuel(ts: Seq<Seq<char>>, fuel: nat) -> Option<SpecReadSeq>
    decreases fuel, 1int,
{
    if ts.len() == 0 {
        Some(Err(SpecErr::UnexpectedEndOfInput))
    } else if ts[0] == seq![')'] {
        Some(Ok((Seq::empty(), ts.drop_first())))
    } else {
        match parse_fuel(ts, fuel) {
            None => None,
            Some(Err(e)) => Some(Err(e)),
            Some(Ok((e, rest))) => {
                if fuel == 0 {
                    None
                } else {
                    match read_seq_fuel(rest, (fuel - 1) as nat) {
                        None => None,
                        Some(Err(e2)) => Some(Err(e2)),
                        Some(Ok((es, rest2))) => Some(Ok((seq![e] + es, rest2))),
                    }
                }
            },
        }
    }
}

/// The parse of one expression from a token sequence.
pub open spec fn spec_parse(ts: Seq<Seq<char>>) -> SpecParsed {
    match parse_fuel(ts, ts.len()) {
        Some(r) => r,
        None => Err(SpecErr::UnexpectedEndOfInput),
    }
}

/// The reading of a list body from a token sequence.
pub open spec fn spec_read_seq(ts: Seq<Seq<char>>) -> SpecReadSeq {
    match read_seq_fuel(ts, ts.len()) {
        Some(r) => r,
        None => Err(SpecErr::UnexpectedEndOfInput),
    }
}

/// With fuel at least the token count, parsing cannot run out of fuel, the
/// result does not depend on the exact fuel, and a successful parse
/// consumes at least one token and returns a suffix of its input.
pub proof fn lemma_parse_fuel(ts: Seq<Seq<char>>, f1: nat, f2: nat)
    requires
        f1 >= ts.len(),
        f2 >= ts.len(),
    ensures
        parse_fuel(ts, f1) is Some,
        parse_fuel(ts, f1) == parse_fuel(ts, f2),
        (match parse_fuel(ts, f1) {
            Some(Ok((e, rest))) => rest.len() < ts.len() && rest == ts.skip(
                ts.len() - rest.len(),
            ),
            _ => true,
        }),
    decreases f1, 0int,
{
    if ts.len() > 0 {
        let t = ts[0];
        let rest = ts.drop_first();
        assert(rest =~= ts.skip(1));
        if t == seq!['('] {
            lemma_read_seq_fuel(rest, (f1 - 1) as nat, (f2 - 1) as nat);
            match read_seq_fuel(rest, (f1 - 1) as nat) {
                Some(Ok((es, rest2))) => {
                    assert(rest2 == rest.skip(rest.len() - rest2.len()));
                    assert(rest.skip(rest.len() - rest2.len()) =~= ts.skip(
                        ts.len() - rest2.len(),
                    ));
                },
                _ => {},
            }
        }
    }
}

/// The companion of [`lemma_parse_fuel`] for list bodies: reading one
/// always consumes at least the closing parenthesis.
pub proof fn lemma_read_seq_fuel(ts: Seq<Seq<char>>, f1: nat, f2: nat)
    requires
        f1 >= ts.len(),
        f2 >= ts.len(),
    ensures
        read_seq_fuel(ts, f1) is Some,
        read_seq_fuel(ts, f1) == read_seq_fuel(ts, f2),
        (match read_seq_fuel(ts, f1) {
            Some(Ok((es, rest))) => rest.len() < ts.len() && rest == ts.skip(
                ts.len() - rest.len(),
            ),
            _ => true,
        }),
    decreases f1, 1int,
{
    if ts.len() > 0 {
        let rest0 = ts.drop_first();
        assert(rest0 =~= ts.skip(1));
        if ts[0] != seq![')'] {
            lemma_parse_fuel(ts, f1, f2);
            match parse_fuel(ts, f1) {
                Some(Ok((e, rest))) => {
                    lemma_read_seq_fuel(rest, (f1 - 1) as nat, (f2 - 1) as nat);
                    match read_seq_fuel(rest, (f1 - 1) as nat) {
                        Some(Ok((es, rest2))) => {
                            assert(rest2 == rest.skip(rest.len() - rest2.len()));
                            assert(rest == ts.skip(ts.len() - rest.len()));
                            assert(rest.skip(rest.len() - rest2.len()) =~= ts.skip(
                                ts.len() - rest2.len(),
                            ));
                        },
                        _ => {},
                    }
                },
                _ => {},
            }
        }
    }
}

/// Unfolds [`spec_parse`] one step, with the fuel bookkeeping hidden: the
/// empty sequence and a leading `)` are diagnostics, a leading `(` defers
/// to [`spec_read_seq`] on the remaining tokens, an atom is read by
/// [`atom_of`].
pub proof fn lemma_spec_parse_step(ts: Seq<Seq<char>>)
    ensures
        ts.len() == 0 ==> spec_parse(ts) == SpecParsed::Err(SpecErr::UnexpectedEndOfInput),
        ts.len() > 0 && ts[0] == seq!['('] ==> spec_parse(ts) == (match spec_read_seq(
            ts.drop_first(),
        ) {
            Ok((es, rest2)) => SpecParsed::Ok((SpecExp::List(es), rest2)),
            Err(e) => SpecParsed::Err(e),
        }),
        ts.len() > 0 && ts[0] == seq![')'] ==> spec_parse(ts) == SpecParsed::Err(
            SpecErr::UnexpectedCloseParen,
        ),
        ts.len() > 0 && ts[0] != seq!['('] && ts[0] != seq![')'] ==> spec_parse(ts)
            == SpecParsed::Ok((atom_of(ts[0]), ts.drop_first())),
{
    if ts.len() > 0 && ts[0] == seq!['('] {
        let rest = ts.drop_first();
        lemma_read_seq_fuel(rest, (ts.len() - 1) as nat, rest.len());
    }
}

/// Unfolds [`spec_read_seq`] one step: the empty sequence is a diagnostic,
/// a leading `)` closes the list, and otherwise one element is parsed and
/// the rest of the body read after it.
pub proof fn lemma_spec_read_seq_step(ts: Seq<Seq<char>>)
    ensures
        ts.len() == 0 ==> spec_read_seq(ts) == SpecReadSeq::Err(SpecErr::UnexpectedEndOfInput),
        ts.len() > 0 && ts[0] == seq![')'] ==> spec_read_seq(ts) == SpecReadSeq::Ok(
            (Seq::empty(), ts.drop_first()),
        ),
        ts.len() > 0 && ts[0] != seq![')'] ==> spec_read_seq(ts) == (match spec_parse(ts) {
            Ok((e, rest)) => (match spec_read_seq(rest) {
                Ok((es, rest2)) => SpecReadSeq::Ok((seq![e] + es, rest2)),
                Err(e2) => SpecReadSeq::Err(e2),
            }),
            Err(e) => SpecReadSeq::Err(e),
        }),
        ts.len() > 0 && ts[0] != seq![')'] && spec_parse(ts) is Ok ==> {
            let rest = spec_parse(ts)->Ok_0.1;
            rest.len() < ts.len() && rest == ts.skip(ts.len() - rest.len())
        },
{
    if ts.len() > 0 && ts[0] != seq![')'] {
        lemma_parse_fuel(ts, ts.len(), ts.len());
        match parse_fuel(ts, ts.len()) {
            Some(Ok((e, rest))) => {
                lemma_read_seq_fuel(rest, (ts.len() - 1) as nat, rest.len());
            },
            _ => {},
        }
    }
}

/// Whether the token `t` is the single character `c`.
fn token_is(t: &String, c: char) -> (b: bool)
    ensures
        b == (t@ == seq![c]),
{
    let s = t.as_str();
    let r = s.unicode_len() == 1 && s.get_char(0) == c;
    proof {
        if r {
            assert(t@ =~= seq![c]);
        }
    }
    r
}

/// Reads one atom: a number when the token satisfies the strict decimal
/// grammar, otherwise a symbol carrying the token text verbatim.
pub fn parse_atom(token: &String) -> (r: LangExp)
    ensures
        r@ == atom_of(token@),
{
    if check_number_token(token.as_str()) {
        LangExp::Number(number_value(token.as_str()))
    } else {
        LangExp::Symbol(token.clone())
    }
}

/// Parses one expression from `tokens` starting at `pos`. On success the
/// returned position is just past the consumed tokens; trailing tokens are
/// left for the caller.
pub fn parse(tokens: &Vec<String>, pos: usize) -> (r: Result<(LangExp, usize), LangErr>)
    requires
        pos <= tokens@.len(),
    ensures
        (match (r, spec_parse(token_views(tokens@).skip(pos as int))) {
            (Ok((e, np)), Ok((se, srest))) => e@ == se && pos < np <= tokens@.len() && srest
                == token_views(tokens@).skip(np as int),
            (Err(e), Err(se)) => e@ == se,
            _ => false,
        }),
    decreases tokens@.len() - pos, 0int,
{
    let ghost tv = token_views(tokens@);
    let ghost ts = tv.skip(pos as int);
    proof {
        lemma_spec_parse_step(ts);
    }
    if pos >= tokens.len() {
        return Err(LangErr::UnexpectedEndOfInput);
    }
    let t = &tokens[pos];
    proof {
        assert(ts[0] == t@);
        assert(ts.drop_first() =~= tv.skip(pos as int + 1));
    }
    if token_is(t, '(') {
        match read_seq(tokens, pos + 1) {
            Ok((e, np)) => Ok((e, np)),
            Err(e) => Err(e),
        }
    } else if token_is(t, ')') {
        Err(LangErr::UnexpectedCloseParen)
    } else {
        let e = parse_atom(t);
        Ok((e, pos + 1))
    }
}

/// Reads a list body from `tokens` starting at `pos`: elements until a
/// closing parenthesis, which is consumed. Returns the list and the
/// position just past the `)`.
pub fn read_seq(tokens: &Vec<String>, pos: usize) -> (r: Result<(LangExp, usize), LangErr>)
    requires
        pos <= tokens@.len(),
    ensures
        (match (r, spec_read_seq(token_views(tokens@).skip(pos as int))) {
            (Ok((e, np)), Ok((es, srest))) => e@ == SpecExp::List(es) && pos < np <= tokens@.len()
                && srest == token_views(tokens@).skip(np as int),
            (Err(e), Err(se)) => e@ == se,
            _ => false,
        }),
    decreases tokens@.len() - pos, 1int,
{
    let ghost tv = token_views(tokens@);
    let mut res: Vec<LangExp> = Vec::new();
    let mut xs: usize = pos;
    proof {
        assert(view_elems(res@) =~= Seq::<SpecExp>::empty());
    }
    loop
        invariant
            pos <= xs <= tokens@.len(),
            tv == token_views(tokens@),
            tv.len() == tokens@.len(),
            (match spec_read_seq(tv.skip(xs as int)) {
                Ok((es, rest)) => spec_read_seq(tv.skip(pos as int)) == SpecReadSeq::Ok(
                    (view_elems(res@) + es, rest),
                ),
                Err(e) => spec_read_seq(tv.skip(pos as int)) == SpecReadSeq::Err(e),
            }),
        decreases tokens@.len() - xs,
    {
        let ghost ts = tv.skip(xs as int);
        proof {
            lemma_spec_read_seq_step(ts);
        }
        if xs >= tokens.len() {
            return Err(LangErr::UnexpectedEndOfInput);
        }
        proof {
            assert(ts[0] == tokens@[xs as int]@);
            assert(ts.drop_first() =~= tv.skip(xs as int + 1));
        }
        if token_is(&tokens[xs], ')') {
            proof {
                assert(view_elems(res@) + Seq::<SpecExp>::empty() =~= view_elems(res@));
            }
            return Ok((LangExp::List(res), xs + 1));
        }
        match parse(tokens, xs) {
            Err(e) => {
                return Err(e);
            },
            Ok((e, np)) => {
                let ghost prev = res@;
                res.push(e);
                xs = np;
                proof {
                    lemma_view_elems(prev);
                    lemma_view_elems(res@);
                    assert(view_elems(res@) =~= view_elems(prev).push(e@));
                    match spec_read_seq(tv.skip(np as int)) {
                        Ok((es2, r2)) => {
                            assert(view_elems(prev) + (seq![e@] + es2) =~= view_elems(res@) + es2);
                        },
                        Err(e2) => {},
                    }
                }
            },
        }
    }
}

} // verus!
