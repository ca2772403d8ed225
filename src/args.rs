use vstd::prelude::*;

use crate::meta::{ErrV, ParseError};
use crate::token::{is_punct, kind_accepts, Tok, ValueKind};

verus! {

/// Position after a value at `p`: past the separating comma, or at the end of input.
pub open spec fn after_value(toks: Seq<Tok>, p: int) -> int {
    if p + 1 < toks.len() {
        p + 2
    } else {
        p + 1
    }
}

/// A value at `p` must be followed by `,` or by the end of input.
pub open spec fn separated(toks: Seq<Tok>, p: int) -> bool {
    p + 1 >= toks.len() || is_punct(toks[p + 1], ',')
}

/// The required values `kinds[..k]` read from `toks[pos..]`, and the position after them.
pub open spec fn required(kinds: Seq<ValueKind>, toks: Seq<Tok>, pos: int, k: int) -> Result<(Seq<Tok>, int), ErrV>
    decreases k,
{
    if k <= 0 {
        Ok((Seq::empty(), pos))
    } else {
        match required(kinds, toks, pos, k - 1) {
            Ok((vs, p)) => if 0 <= p < toks.len() && kind_accepts(kinds[k - 1], toks[p]) {
                if separated(toks, p) {
                    Ok((vs.push(toks[p]), after_value(toks, p)))
                } else {
                    Err(ErrV::UnexpectedToken(p + 1))
                }
            } else {
                Err(ErrV::TypeMismatch(p))
            },
            Err(x) => Err(x),
        }
    }
}

/// The optional values `kinds[..k]` read from `toks[pos..]`, the position after them, and
/// whether reading has stopped at a value that did not match.
pub open spec fn optional(kinds: Seq<ValueKind>, toks: Seq<Tok>, pos: int, k: int) -> Result<(Seq<Option<Tok>>, int, bool), ErrV>
    decreases k,
{
    if k <= 0 {
        Ok((Seq::empty(), pos, false))
    } else {
        match optional(kinds, toks, pos, k - 1) {
            Ok((vs, p, stopped)) => if !stopped && 0 <= p < toks.len() && kind_accepts(kinds[k - 1], toks[p]) {
                if separated(toks, p) {
                    Ok((vs.push(Some(toks[p])), after_value(toks, p), false))
                } else {
                    Err(ErrV::UnexpectedToken(p + 1))
                }
            } else {
                Ok((vs.push(None), p, true))
            },
            Err(x) => Err(x),
        }
    }
}

/// The run of values of kind `kind` read from `toks[pos..]`, and the position after it.
pub open spec fn rest(kind: ValueKind, toks: Seq<Tok>, pos: int) -> Result<(Seq<Tok>, int), ErrV>
    decreases toks.len() - pos,
{
    if 0 <= pos < toks.len() && kind_accepts(kind, toks[pos]) {
        if separated(toks, pos) {
            match rest(kind, toks, after_value(toks, pos)) {
                Ok((vs, e)) => Ok((seq![toks[pos]] + vs, e)),
                Err(x) => Err(x),
            }
        } else {
            Err(ErrV::UnexpectedToken(pos + 1))
        }
    } else {
        Ok((Seq::empty(), pos))
    }
}

pub open spec fn prepend(acc: Seq<Tok>, r: Result<(Seq<Tok>, int), ErrV>) -> Result<(Seq<Tok>, int), ErrV> {
    match r {
        Ok((vs, e)) => Ok((acc + vs, e)),
        Err(x) => Err(x),
    }
}

/// Checks the separator after a value at `p`, and returns the position after it.
fn skip_comma(toks: &Vec<Tok>, p: usize) -> (r: Result<usize, ParseError>)
    requires
        p < toks@.len(),
    ensures
        separated(toks@, p as int) ==> r == Ok::<usize, ParseError>(after_value(toks@, p as int) as usize),
        !separated(toks@, p as int) ==> (r matches Err(e) && e@ == ErrV::UnexpectedToken(p + 1)),
{
    let len = toks.len();
    if p + 1 < len {
        if toks[p + 1].is_punct(',') {
            Ok(p + 2)
        } else {
            Err(ParseError::UnexpectedToken(p + 1))
        }
    } else {
        Ok(p + 1)
    }
}

/// Reads one value of each kind in `kinds`, in order, each followed by `,` or the end.
pub fn parse_required(kinds: &Vec<ValueKind>, toks: &Vec<Tok>, pos: usize) -> (r: Result<(Vec<Tok>, usize), ParseError>)
    requires
        pos <= toks@.len(),
    ensures
        match (r, required(kinds@, toks@, pos as int, kinds@.len() as int)) {
            (Ok((vs, p)), Ok((ws, q))) => vs@ == ws && p as int == q && p <= toks@.len(),
            (Err(x), Err(y)) => x@ == y,
            _ => false,
        },
{
    let mut vs: Vec<Tok> = Vec::new();
    let mut p = pos;
    let mut i: usize = 0;
    while i < kinds.len()
        invariant
            i <= kinds@.len(),
            p <= toks@.len(),
            required(kinds@, toks@, pos as int, i as int) == Ok::<(Seq<Tok>, int), ErrV>((vs@, p as int)),
        decreases kinds@.len() - i,
    {
        if p < toks.len() && kinds[i].accepts(&toks[p]) {
            let t = toks[p].copy_leaf();
            match skip_comma(toks, p) {
                Ok(q) => {
                    vs.push(t);
                    p = q;
                },
                Err(x) => {
                    proof {
                        lemma_required_err(kinds@, toks@, pos as int, i as int + 1, kinds@.len() as int);
                    }
                    return Err(x);
                },
            }
        } else {
            proof {
                lemma_required_err(kinds@, toks@, pos as int, i as int + 1, kinds@.len() as int);
            }
            return Err(ParseError::TypeMismatch(p));
        }
        i = i + 1;
    }
    Ok((vs, p))
}

proof fn lemma_required_err(kinds: Seq<ValueKind>, toks: Seq<Tok>, pos: int, j: int, k: int)
    requires
        0 <= j <= k,
        required(kinds, toks, pos, j) is Err,
    ensures
        required(kinds, toks, pos, k) == required(kinds, toks, pos, j),
    decreases k - j,
{
    if k > j {
        lemma_required_err(kinds, toks, pos, j, k - 1);
    }
}

proof fn lemma_optional_err(kinds: Seq<ValueKind>, toks: Seq<Tok>, pos: int, j: int, k: int)
    requires
        0 <= j <= k,
        optional(kinds, toks, pos, j) is Err,
    ensures
        optional(kinds, toks, pos, k) == optional(kinds, toks, pos, j),
    decreases k - j,
{
    if k > j {
        lemma_optional_err(kinds, toks, pos, j, k - 1);
    }
}

/// Reads one value of each kind in `kinds`, in order, until one does not match; that slot
/// and all after it are `None`.
pub fn parse_optional(kinds: &Vec<ValueKind>, toks: &Vec<Tok>, pos: usize) -> (r: Result<(Vec<Option<Tok>>, usize), ParseError>)
    requires
        pos <= toks@.len(),
    ensures
        match (r, optional(kinds@, toks@, pos as int, kinds@.len() as int)) {
            (Ok((vs, p)), Ok((ws, q, _))) => vs@ == ws && p as int == q && p <= toks@.len(),
            (Err(x), Err(y)) => x@ == y,
            _ => false,
        },
{
    let mut vs: Vec<Option<Tok>> = Vec::new();
    let mut p = pos;
    let mut stopped = false;
    let mut i: usize = 0;
    while i < kinds.len()
        invariant
            i <= kinds@.len(),
            p <= toks@.len(),
            optional(kinds@, toks@, pos as int, i as int) == Ok::<(Seq<Option<Tok>>, int, bool), ErrV>((vs@, p as int, stopped)),
        decreases kinds@.len() - i,
    {
        if !stopped && p < toks.len() && kinds[i].accepts(&toks[p]) {
            let t = toks[p].copy_leaf();
            match skip_comma(toks, p) {
                Ok(q) => {
                    vs.push(Some(t));
                    p = q;
                },
                Err(x) => {
                    proof {
                        lemma_optional_err(kinds@, toks@, pos as int, i as int + 1, kinds@.len() as int);
                    }
                    return Err(x);
                },
            }
        } else {
            vs.push(None);
            stopped = true;
        }
        i = i + 1;
    }
    Ok((vs, p))
}

/// Reads values of kind `kind` while they match.
pub fn parse_rest(kind: ValueKind, toks: &Vec<Tok>, pos: usize) -> (r: Result<(Vec<Tok>, usize), ParseError>)
    requires
        pos <= toks@.len(),
    ensures
        match (r, rest(kind, toks@, pos as int)) {
            (Ok((vs, p)), Ok((ws, q))) => vs@ == ws && p as int == q && p <= toks@.len(),
            (Err(x), Err(y)) => x@ == y,
            _ => false,
        },
{
    let mut vs: Vec<Tok> = Vec::new();
    let mut p = pos;
    proof {
        assert(rest(kind, toks@, pos as int) == prepend(vs@, rest(kind, toks@, p as int))) by {
            match rest(kind, toks@, pos as int) {
                Ok((ws, e)) => assert(vs@ + ws =~= ws),
                Err(_) => {},
            }
        }
    }
    while p < toks.len() && kind.accepts(&toks[p])
        invariant
            pos <= p <= toks@.len(),
            rest(kind, toks@, pos as int) == prepend(vs@, rest(kind, toks@, p as int)),
        decreases toks@.len() - p,
    {
        let t = toks[p].copy_leaf();
        let q = skip_comma(toks, p)?;
        proof {
            match rest(kind, toks@, q as int) {
                Ok((ws, e)) => assert(vs@.push(t) + ws =~= vs@ + (seq![t] + ws)),
                Err(_) => {},
            }
        }
        vs.push(t);
        p = q;
    }
    proof {
        assert(vs@ + Seq::<Tok>::empty() =~= vs@);
    }
    Ok((vs, p))
}

} // verus!
