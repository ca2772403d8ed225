use vstd::prelude::*;

verus! {

broadcast use vstd::std_specs::vec::axiom_vec_index_decreases;

/// One token of an annotation's argument list, as the parser sees it.
///
/// A parenthesized group keeps its contents as a nested token sequence;
/// literals and delimiters that the grammar never inspects are kept as text.
#[derive(Debug, PartialEq, Eq)]
pub enum Tok {
    Ident(String),
    Punct(char),
    Str(String),
    Int(u64),
    Group(Vec<Tok>),
    Other(String),
}

/// The kind of a single-token value that a positional or `key = value` slot accepts.
#[derive(Clone, Copy, Debug, PartialEq, Eq, Structural)]
pub enum ValueKind {
    Str,
    Int,
    Ident,
    Lit,
}

pub open spec fn is_group(t: Tok) -> bool {
    t is Group
}

pub open spec fn is_punct(t: Tok, c: char) -> bool {
    t matches Tok::Punct(p) && p == c
}

/// Whether token `t` is a value of kind `k`.
pub open spec fn kind_accepts(k: ValueKind, t: Tok) -> bool {
    match k {
        ValueKind::Str => t is Str,
        ValueKind::Int => t is Int,
        ValueKind::Ident => t is Ident,
        ValueKind::Lit => t is Str || t is Int,
    }
}

impl ValueKind {
    pub fn accepts(&self, t: &Tok) -> (r: bool)
        ensures
            r == kind_accepts(*self, *t),
    {
        match (self, t) {
            (ValueKind::Str, Tok::Str(_)) => true,
            (ValueKind::Int, Tok::Int(_)) => true,
            (ValueKind::Ident, Tok::Ident(_)) => true,
            (ValueKind::Lit, Tok::Str(_)) => true,
            (ValueKind::Lit, Tok::Int(_)) => true,
            _ => false,
        }
    }
}

impl Tok {
    pub fn is_punct(&self, c: char) -> (r: bool)
        ensures
            r == is_punct(*self, c),
    {
        match self {
            Tok::Punct(p) => *p == c,
            _ => false,
        }
    }

    /// A copy of a token that is not a group.
    pub fn copy_leaf(&self) -> (r: Tok)
        requires
            !is_group(*self),
        ensures
            r == *self,
    {
        match self {
            Tok::Ident(s) => Tok::Ident(s.clone()),
            Tok::Punct(c) => Tok::Punct(*c),
            Tok::Str(s) => Tok::Str(s.clone()),
            Tok::Int(v) => Tok::Int(*v),
            Tok::Other(s) => Tok::Other(s.clone()),
            Tok::Group(_) => Tok::Other(String::new()),
        }
    }
}

/// The contents of a parenthesized group; empty for any other token.
pub open spec fn content(t: Tok) -> Seq<Tok> {
    match t {
        Tok::Group(v) => v@,
        _ => Seq::empty(),
    }
}

/// The text of an identifier token; empty for any other token.
pub open spec fn ident_text(t: Tok) -> Seq<char> {
    match t {
        Tok::Ident(s) => s@,
        _ => Seq::empty(),
    }
}

/// Index of the first `,` at or after `i`, or the length when there is none.
pub open spec fn next_comma(toks: Seq<Tok>, i: int) -> int
    decreases toks.len() - i,
{
    if i >= toks.len() || i < 0 {
        toks.len() as int
    } else if is_punct(toks[i], ',') {
        i
    } else {
        next_comma(toks, i + 1)
    }
}

pub proof fn lemma_next_comma(toks: Seq<Tok>, i: int)
    requires
        0 <= i <= toks.len(),
    ensures
        i <= next_comma(toks, i) <= toks.len(),
        next_comma(toks, i) < toks.len() ==> is_punct(toks[next_comma(toks, i)], ','),
        forall|j: int| i <= j < next_comma(toks, i) ==> !is_punct(#[trigger] toks[j], ','),
    decreases toks.len() - i,
{
    if i < toks.len() && !is_punct(toks[i], ',') {
        lemma_next_comma(toks, i + 1);
    }
}

pub fn find_comma(toks: &Vec<Tok>, start: usize) -> (r: usize)
    requires
        start <= toks@.len(),
    ensures
        r == next_comma(toks@, start as int),
{
    let mut i: usize = start;
    while i < toks.len()
        invariant
            start <= i <= toks@.len(),
            next_comma(toks@, start as int) == next_comma(toks@, i as int),
        decreases toks@.len() - i,
    {
        if toks[i].is_punct(',') {
            return i;
        }
        i = i + 1;
    }
    i
}

} // verus!
