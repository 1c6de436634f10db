//! The lexer. A source line is split into tokens: each `(` and `)` is a
//! token of its own, and every other maximal run of non-whitespace
//! characters is an atom token. Lexing is total: every string yields a
//! token sequence.

use vstd::prelude::*;
use vstd::string::StrSliceExecFns;

verus! {

/// A token separator: space, tab, or newline.
pub open spec fn is_space(c: char) -> bool {
    c == ' ' || c == '\t' || c == '\n'
}

/// A structural token: an opening or closing parenthesis.
pub open spec fn is_paren(c: char) -> bool {
    c == '(' || c == ')'
}

/// A singleton token, or nothing when the atom in progress is empty.
pub open spec fn flush(cur: Seq<char>) -> Seq<Seq<char>> {
    if cur.len() == 0 {
        Seq::empty()
    } else {
        seq![cur]
    }
}

/// Tokenizes `s` with `cur` as the atom read so far: a separator ends the
/// atom, a parenthesis ends it and stands alone, any other character
/// extends it.
pub open spec fn tok_rec(s: Seq<char>, cur: Seq<char>) -> Seq<Seq<char>>
    decreases s.len(),
{
    if s.len() == 0 {
        flush(cur)
    } else if is_space(s[0]) {
        flush(cur) + tok_rec(s.drop_first(), Seq::empty())
    } else if is_paren(s[0]) {
        flush(cur) + seq![seq![s[0]]] + tok_rec(s.drop_first(), Seq::empty())
    } else {
        tok_rec(s.drop_first(), cur.push(s[0]))
    }
}

/// The token sequence of a source line.
pub open spec fn spec_tokenize(s: Seq<char>) -> Seq<Seq<char>> {
    tok_rec(s, Seq::empty())
}

/// The views of a sequence of tokens.
pub open spec fn token_views(ts: Seq<String>) -> Seq<Seq<char>> {
    ts.map_values(|t: String| t@)
}

/// Splits a source line into tokens. Never fails: any string, empty or
/// whitespace-only included, yields a (possibly empty) token sequence.
pub fn tokenize(exp: String) -> (r: Vec<String>)
    ensures
        token_views(r@) == spec_tokenize(exp@),
{
    let s = exp.as_str();
    let n: usize = s.unicode_len();
    let mut out: Vec<String> = Vec::new();
    let mut start: usize = 0;
    let mut in_atom: bool = false;
    let mut i: usize = 0;
    proof {
        assert(exp@.skip(0) =~= exp@);
        assert(token_views(out@) =~= Seq::<Seq<char>>::empty());
    }
    while i < n
        invariant
            n == exp@.len(),
            s@ == exp@,
            0 <= i <= n,
            in_atom ==> 0 <= start < i,
            spec_tokenize(exp@) == token_views(out@) + tok_rec(
                exp@.skip(i as int),
                if in_atom { exp@.subrange(start as int, i as int) } else { Seq::empty() },
            ),
        decreases n - i,
    {
        let ghost cur: Seq<char> = if in_atom {
            exp@.subrange(start as int, i as int)
        } else {
            Seq::empty()
        };
        proof {
            assert(exp@.skip(i as int)[0] == exp@[i as int]);
            assert(exp@.skip(i as int).drop_first() =~= exp@.skip(i as int + 1));
        }
        let c = s.get_char(i);
        if c == ' ' || c == '\t' || c == '\n' {
            if in_atom {
                let ghost prev = out@;
                out.push(s.substring_char(start, i).to_owned());
                proof {
                    assert(token_views(out@) =~= token_views(prev) + flush(cur));
                }
                in_atom = false;
            }
        } else if c == '(' || c == ')' {
            if in_atom {
                let ghost prev = out@;
                out.push(s.substring_char(start, i).to_owned());
                proof {
                    assert(token_views(out@) =~= token_views(prev) + flush(cur));
                }
                in_atom = false;
            }
            let ghost prev2 = out@;
            out.push(s.substring_char(i, i + 1).to_owned());
            proof {
                assert(exp@.subrange(i as int, i as int + 1) =~= seq![exp@[i as int]]);
                assert(token_views(out@) =~= token_views(prev2) + seq![seq![exp@[i as int]]]);
            }
        } else {
            if !in_atom {
                start = i;
                in_atom = true;
            }
            proof {
                assert(cur.push(exp@[i as int]) =~= exp@.subrange(start as int, i as int + 1));
            }
        }
        i = i + 1;
        proof {
            assert(token_views(out@) + tok_rec(
                exp@.skip(i as int),
                if in_atom { exp@.subrange(start as int, i as int) } else { Seq::empty() },
            ) =~= spec_tokenize(exp@));
        }
    }
    if in_atom {
        let ghost prev = out@;
        out.push(s.substring_char(start, n).to_owned());
        proof {
            assert(exp@.skip(n as int).len() == 0);
            assert(token_views(out@) =~= token_views(prev) + flush(
                exp@.subrange(start as int, n as int),
            ));
        }
    }
    proof {
        assert(exp@.skip(n as int).len() == 0);
        assert(token_views(out@) =~= spec_tokenize(exp@));
    }
    out
}

} // verus!
