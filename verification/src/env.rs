//! The environment: a case-sensitive mapping from symbol name to
//! expression. `bind` replaces any prior binding of the name; the default
//! environment carries the built-in procedures `+` and `-`.

use vstd::prelude::*;
use vstd::string::StringExecFns;
use crate::exp::{LangExp, LangProc, SpecExp};

verus! {

/// A name → expression mapping, modeled as the map in which the latest
/// binding of each name wins.
pub struct LangEnv {
    data: Vec<(String, LangExp)>,
}

/// The map that a binding sequence denotes: later entries shadow earlier
/// ones.
pub open spec fn env_map(s: Seq<(String, LangExp)>) -> Map<Seq<char>, SpecExp>
    decreases s.len(),
{
    if s.len() == 0 {
        Map::empty()
    } else {
        env_map(s.drop_last()).insert(s.last().0@, s.last().1@)
    }
}

impl View for LangEnv {
    type V = Map<Seq<char>, SpecExp>;

    closed spec fn view(&self) -> Map<Seq<char>, SpecExp> {
        env_map(self.data@)
    }
}

/// The bindings of a fresh default environment: `+` and `-`.
pub open spec fn default_env_map() -> Map<Seq<char>, SpecExp> {
    Map::empty().insert("+"@, SpecExp::Func(LangProc::Add)).insert(
        "-"@,
        SpecExp::Func(LangProc::Sub),
    )
}

impl LangEnv {
    /// An environment with no bindings.
    pub fn new() -> (r: Self)
        ensures
            r@ == Map::<Seq<char>, SpecExp>::empty(),
    {
        LangEnv { data: Vec::new() }
    }

    /// Binds `name` to `value`, replacing any prior binding of `name`.
    pub fn bind(&mut self, name: String, value: LangExp)
        ensures
            final(self)@ == old(self)@.insert(name@, value@),
    {
        self.data.push((name, value));
        proof {
            assert(self.data@.drop_last() =~= old(self).data@);
        }
    }

    /// Looks `name` up: the bound expression, or nothing when `name` is
    /// unbound.
    pub fn lookup(&self, name: &String) -> (r: Option<LangExp>)
        ensures
            (match r {
                Some(e) => self@.contains_key(name@) && e@ == self@[name@],
                None => !self@.contains_key(name@),
            }),
    {
        let n: usize = self.data.len();
        let mut i: usize = n;
        proof {
            assert(self.data@.take(n as int) =~= self.data@);
        }
        while i > 0
            invariant
                0 <= i <= n,
                n == self.data@.len(),
                self@.contains_key(name@) == env_map(self.data@.take(i as int)).contains_key(
                    name@,
                ),
                self@.contains_key(name@) ==> self@[name@] == env_map(
                    self.data@.take(i as int),
                )[name@],
            decreases i,
        {
            proof {
                assert(self.data@.take(i as int).last() == self.data@[i as int - 1]);
                assert(self.data@.take(i as int).drop_last() =~= self.data@.take(i as int - 1));
            }
            let pair = &self.data[i - 1];
            if pair.0 == *name {
                return Some(pair.1.duplicate());
            }
            i = i - 1;
        }
        proof {
            assert(self.data@.take(0) =~= Seq::<(String, LangExp)>::empty());
        }
        None
    }
}

/// A fresh environment pre-populated with the built-in arithmetic
/// procedures `+` and `-`.
pub fn default_env() -> (r: LangEnv)
    ensures
        r@ == default_env_map(),
{
    let mut env = LangEnv::new();
    env.bind(String::from_str("+"), LangExp::Func(LangProc::Add));
    env.bind(String::from_str("-"), LangExp::Func(LangProc::Sub));
    env
}

} // verus!
