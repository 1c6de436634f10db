//! The value model: the tagged `LangExp` type that serves as both syntax
//! tree and runtime value, its mathematical model `SpecExp`, and the error
//! type `LangErr` with its human-readable messages.

use vstd::prelude::*;
use vstd::string::{StrSliceExecFns, StringExecFns};
use crate::numeric::{decimal_of, number_to_string};

verus! {

/// Identifies one of the built-in procedures of the default environment.
#[derive(Clone, Copy, Debug, PartialEq, Eq, Structural)]
pub enum LangProc {
    /// Variadic addition, `+`.
    Add,
    /// Variadic subtraction, `-`.
    Sub,
}

/// A runtime value or syntax tree node: a symbol, a number (carried as the
/// bit pattern of an IEEE-754 double), a list, or a built-in procedure.
#[derive(Debug)]
pub enum LangExp {
    Symbol(String),
    Number(u64),
    List(Vec<LangExp>),
    Func(LangProc),
}

/// The mathematical model of a [`LangExp`].
pub enum SpecExp {
    Symbol(Seq<char>),
    Number(u64),
    List(Seq<SpecExp>),
    Func(LangProc),
}

impl View for LangExp {
    type V = SpecExp;

    open spec fn view(&self) -> SpecExp
        decreases self,
    {
        match self {
            LangExp::Symbol(s) => SpecExp::Symbol(s@),
            LangExp::Number(b) => SpecExp::Number(*b),
            LangExp::List(v) => SpecExp::List(view_elems(v@)),
            LangExp::Func(p) => SpecExp::Func(*p),
        }
    }
}

/// The views of a sequence of expressions, element by element.
pub open spec fn view_elems(v: Seq<LangExp>) -> Seq<SpecExp>
    decreases v,
{
    if v.len() == 0 {
        Seq::empty()
    } else {
        seq![v[0]@] + view_elems(v.drop_first())
    }
}

/// `view_elems` is the element-wise view: it keeps the length and maps
/// every position independently.
pub proof fn lemma_view_elems(v: Seq<LangExp>)
    ensures
        view_elems(v).len() == v.len(),
        forall|i: int| 0 <= i < v.len() ==> #[trigger] view_elems(v)[i] == v[i]@,
    decreases v,
{
    reveal_with_fuel(view_elems, 2);
    if v.len() > 0 {
        lemma_view_elems(v.drop_first());
        assert forall|i: int| 0 <= i < v.len() implies #[trigger] view_elems(v)[i] == v[i]@ by {
            if i > 0 {
                assert(view_elems(v)[i] == view_elems(v.drop_first())[i - 1]);
                assert(v.drop_first()[i - 1] == v[i]);
            }
        }
    }
}

impl LangExp {
    /// A structural copy: expressions are immutable values, and every
    /// consumer that holds one by reference copies it to own it.
    pub fn duplicate(&self) -> (r: Self)
        ensures
            r@ == self@,
        decreases self,
    {
        match self {
            LangExp::Symbol(s) => LangExp::Symbol(s.clone()),
            LangExp::Number(b) => LangExp::Number(*b),
            LangExp::List(v) => LangExp::List(duplicate_elems(v)),
            LangExp::Func(p) => LangExp::Func(*p),
        }
    }
}

fn duplicate_elems(v: &Vec<LangExp>) -> (r: Vec<LangExp>)
    ensures
        view_elems(r@) == view_elems(v@),
    decreases v,
{
    let mut out: Vec<LangExp> = Vec::new();
    let mut i: usize = 0;
    while i < v.len()
        invariant
            0 <= i <= v@.len(),
            out@.len() == i,
            forall|j: int| 0 <= j < i ==> out@[j]@ == #[trigger] v@[j]@,
        decreases v@.len() - i,
    {
        out.push(v[i].duplicate());
        i = i + 1;
    }
    proof {
        lemma_view_elems(v@);
        lemma_view_elems(out@);
        assert(view_elems(out@) =~= view_elems(v@));
    }
    out
}

/// An evaluation, parse, or arithmetic failure, one variant per recognized
/// kind; [`LangErr::message`] renders the human-readable text.
#[derive(Debug)]
pub enum LangErr {
    /// A token was required but the token sequence was exhausted.
    UnexpectedEndOfInput,
    /// A `)` appeared where an expression was expected.
    UnexpectedCloseParen,
    /// A symbol had no binding in the environment; carries the symbol's text.
    UndefinedSymbol(String),
    /// An empty list `()` was evaluated.
    EmptyApplication,
    /// The head of a call did not reduce to a procedure.
    HeadNotCallable,
    /// A raw procedure appeared outside the head position of a call.
    RawProcedureForm,
    /// A numeric primitive received a non-number; carries its printed form.
    ExpectedNumber(String),
    /// A primitive that needs at least one argument received none.
    MissingArgument,
}

/// The mathematical model of a [`LangErr`].
pub enum SpecErr {
    UnexpectedEndOfInput,
    UnexpectedCloseParen,
    UndefinedSymbol(Seq<char>),
    EmptyApplication,
    HeadNotCallable,
    RawProcedureForm,
    ExpectedNumber(Seq<char>),
    MissingArgument,
}

impl View for LangErr {
    type V = SpecErr;

    open spec fn view(&self) -> SpecErr {
        match self {
            LangErr::UnexpectedEndOfInput => SpecErr::UnexpectedEndOfInput,
            LangErr::UnexpectedCloseParen => SpecErr::UnexpectedCloseParen,
            LangErr::UndefinedSymbol(s) => SpecErr::UndefinedSymbol(s@),
            LangErr::EmptyApplication => SpecErr::EmptyApplication,
            LangErr::HeadNotCallable => SpecErr::HeadNotCallable,
            LangErr::RawProcedureForm => SpecErr::RawProcedureForm,
            LangErr::ExpectedNumber(p) => SpecErr::ExpectedNumber(p@),
            LangErr::MissingArgument => SpecErr::MissingArgument,
        }
    }
}

/// The human-readable message of each error kind. The undefined-symbol
/// message ends with the symbol's exact text, and the expected-number
/// message with the offending value's printed form.
pub open spec fn message_of(e: SpecErr) -> Seq<char> {
    match e {
        SpecErr::UnexpectedEndOfInput => "unexpected end of input"@,
        SpecErr::UnexpectedCloseParen => "unexpected closing parenthesis"@,
        SpecErr::UndefinedSymbol(s) => "undefined symbol "@ + s,
        SpecErr::EmptyApplication => "expected a non-empty list"@,
        SpecErr::HeadNotCallable => "first form must be a function"@,
        SpecErr::RawProcedureForm => "unexpected form"@,
        SpecErr::ExpectedNumber(p) => "expected a number, got "@ + p,
        SpecErr::MissingArgument => "expected at least one number"@,
    }
}

impl LangErr {
    /// Renders the message that the shell reports for this error.
    pub fn message(&self) -> (r: String)
        ensures
            r@ == message_of(self@),
    {
        match self {
            LangErr::UnexpectedEndOfInput => String::from_str("unexpected end of input"),
            LangErr::UnexpectedCloseParen => String::from_str("unexpected closing parenthesis"),
            LangErr::UndefinedSymbol(s) => {
                let mut m = String::from_str("undefined symbol ");
                m.append(s.as_str());
                m
            },
            LangErr::EmptyApplication => String::from_str("expected a non-empty list"),
            LangErr::HeadNotCallable => String::from_str("first form must be a function"),
            LangErr::RawProcedureForm => String::from_str("unexpected form"),
            LangErr::ExpectedNumber(p) => {
                let mut m = String::from_str("expected a number, got ");
                m.append(p.as_str());
                m
            },
            LangErr::MissingArgument => String::from_str("expected at least one number"),
        }
    }
}

/// The printed form of an expression: a symbol verbatim, a number in its
/// decimal rendering, a list in parentheses with comma-separated elements,
/// a procedure as a fixed placeholder.
pub open spec fn display_of(e: SpecExp) -> Seq<char>
    decreases e, 1int,
{
    match e {
        SpecExp::Symbol(s) => s,
        SpecExp::Number(b) => decimal_of(b),
        SpecExp::List(es) => seq!['('] + display_join(es) + seq![')'],
        SpecExp::Func(_) => "Function {}"@,
    }
}

/// The comma-separated printed forms of a list's elements.
pub open spec fn display_join(es: Seq<SpecExp>) -> Seq<char>
    decreases es, 0int,
{
    if es.len() == 0 {
        Seq::empty()
    } else if es.len() == 1 {
        display_of(es[0])
    } else {
        display_of(es[0]) + seq![','] + display_join(es.drop_first())
    }
}

impl LangExp {
    /// Renders the printed form of this expression.
    pub fn to_display_string(&self) -> (r: String)
        ensures
            r@ == display_of(self@),
        decreases self,
    {
        match self {
            LangExp::Symbol(s) => s.clone(),
            LangExp::Number(b) => number_to_string(*b),
            LangExp::List(v) => {
                let mut out = String::from_str("(");
                let middle = display_elems(v);
                out.append(middle.as_str());
                out.append(")");
                proof {
                    reveal_strlit("(");
                    reveal_strlit(")");
                    assert("("@ =~= seq!['(']);
                    assert(")"@ =~= seq![')']);
                    assert(out@ =~= display_of(self@));
                }
                out
            },
            LangExp::Func(_) => String::from_str("Function {}"),
        }
    }
}

/// Renders the comma-separated printed forms of a list's elements.
fn display_elems(v: &Vec<LangExp>) -> (r: String)
    ensures
        r@ == display_join(view_elems(v@)),
    decreases v,
{
    let mut out = String::new();
    proof {
        lemma_view_elems(v@);
        assert(view_elems(v@).take(0) =~= Seq::<SpecExp>::empty());
    }
    let mut i: usize = 0;
    while i < v.len()
        invariant
            0 <= i <= v@.len(),
            view_elems(v@).len() == v@.len(),
            forall|j: int| 0 <= j < v@.len() ==> #[trigger] view_elems(v@)[j] == v@[j]@,
            out@ == display_join(view_elems(v@).take(i as int)),
        decreases v@.len() - i,
    {
        if i > 0 {
            out.append(",");
        }
        let piece = v[i].to_display_string();
        out.append(piece.as_str());
        proof {
            lemma_display_join_snoc(view_elems(v@).take(i as int), v@[i as int]@);
            assert(view_elems(v@).take(i as int).push(v@[i as int]@)
                =~= view_elems(v@).take(i as int + 1));
            reveal_strlit(",");
            assert(","@ =~= seq![',']);
        }
        i = i + 1;
    }
    proof {
        assert(view_elems(v@).take(v@.len() as int) =~= view_elems(v@));
    }
    out
}

/// Appending one element to a printed list appends a comma and its printed
/// form, or just its printed form when the list was empty.
proof fn lemma_display_join_snoc(es: Seq<SpecExp>, x: SpecExp)
    ensures
        es.len() == 0 ==> display_join(es.push(x)) == display_of(x),
        es.len() > 0 ==> display_join(es.push(x)) =~= display_join(es) + seq![','] + display_of(x),
    decreases es,
{
    if es.len() == 0 {
        assert(es.push(x)[0] == x);
        assert(es.push(x).len() == 1);
    } else {
        assert(es.push(x).drop_first() =~= es.drop_first().push(x));
        lemma_display_join_snoc(es.drop_first(), x);
        if es.len() == 1 {
            assert(display_join(es) == display_of(es[0]));
        }
    }
}

} // verus!
