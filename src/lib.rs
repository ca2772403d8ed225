//! A grammar engine for the argument lists of declaration-style annotations:
//! required positional values, optional positional values, a run of further
//! values, then named keyword entries (`name`, `name = value`, `name(...)`),
//! parsed into one output or one precise error.

use vstd::prelude::*;

pub mod args;
pub mod find_attr;
pub mod laws;
pub mod meta;
pub mod token;

use crate::args::{optional, parse_optional, parse_required, parse_rest, required, rest};
use crate::meta::{parse_section, res_view, scan, ErrV, Node, NodeV, Out, OutV, ParseError};
use crate::token::{is_punct, Tok, ValueKind};

verus! {

/// What an annotation carries after its path.
pub enum Payload {
    /// `#[path]`
    Path,
    /// `#[path(tokens)]`
    List(Vec<Tok>),
    /// `#[path = tokens]`
    NameValue(Vec<Tok>),
}

/// One annotation on an item.
pub struct Attr {
    pub path: String,
    pub payload: Payload,
}

/// A parser description: the kinds of the positional values and the keyword grammar.
pub struct ParseArgs {
    args: Vec<ValueKind>,
    opt_args: Vec<ValueKind>,
    rest_args: Option<ValueKind>,
    meta: Node,
}

pub struct ParseArgsV {
    pub args: Seq<ValueKind>,
    pub opt_args: Seq<ValueKind>,
    pub rest_args: Option<ValueKind>,
    pub meta: NodeV,
}

impl View for ParseArgs {
    type V = ParseArgsV;

    closed spec fn view(&self) -> ParseArgsV {
        ParseArgsV { args: self.args@, opt_args: self.opt_args@, rest_args: self.rest_args, meta: self.meta@ }
    }
}

/// The result of a parse.
#[derive(Debug)]
pub struct Parsed {
    pub args: Vec<Tok>,
    pub opt_args: Vec<Option<Tok>>,
    pub rest_args: Vec<Tok>,
    pub meta: Out,
}

pub struct ParsedV {
    pub args: Seq<Tok>,
    pub opt_args: Seq<Option<Tok>>,
    pub rest_args: Seq<Tok>,
    pub meta: OutV,
}

impl View for Parsed {
    type V = ParsedV;

    open spec fn view(&self) -> ParsedV {
        ParsedV { args: self.args@, opt_args: self.opt_args@, rest_args: self.rest_args@, meta: self.meta@ }
    }
}

/// The run of further values, when the description has one.
pub open spec fn rest_of(kind: Option<ValueKind>, toks: Seq<Tok>, pos: int) -> Result<(Seq<Tok>, int), ErrV> {
    match kind {
        Some(k) => rest(k, toks, pos),
        None => Ok((Seq::empty(), pos)),
    }
}

/// The parse of a whole argument list: positional values first, then the keyword section.
pub open spec fn parse_tokens(a: ParseArgsV, toks: Seq<Tok>) -> Result<ParsedV, ErrV> {
    match required(a.args, toks, 0, a.args.len() as int) {
        Err(x) => Err(x),
        Ok((rv, after_req)) => match optional(a.opt_args, toks, after_req, a.opt_args.len() as int) {
            Err(x) => Err(x),
            Ok((ov, after_opt, _)) => match rest_of(a.rest_args, toks, after_opt) {
                Err(x) => Err(x),
                Ok((tv, after_rest)) => match scan(a.meta, toks, after_rest, seq![]) {
                    Err(x) => Err(x),
                    Ok(m) => Ok(ParsedV { args: rv, opt_args: ov, rest_args: tv, meta: m }),
                },
            },
        },
    }
}

/// The tokens of one annotation's list, as spliced into a concatenation: followed by `,`
/// unless empty or already ending in one.
pub open spec fn spliced(t: Seq<Tok>) -> Seq<Tok> {
    if t.len() == 0 || is_punct(t.last(), ',') {
        t
    } else {
        t.push(Tok::Punct(','))
    }
}

/// The concatenated lists of `attrs[..k]`; each must have the list form.
pub open spec fn concat_lists(attrs: Seq<Attr>, k: int) -> Result<Seq<Tok>, ErrV>
    decreases k,
{
    if k <= 0 {
        Ok(Seq::empty())
    } else {
        match concat_lists(attrs, k - 1) {
            Ok(ts) => match attrs[k - 1].payload {
                Payload::List(t) => Ok(ts + spliced(t@)),
                _ => Err(ErrV::UnsupportedPayloadShape),
            },
            Err(x) => Err(x),
        }
    }
}

/// The tokens that a single annotation hands to the parser.
pub open spec fn payload_tokens(p: Payload) -> Result<Seq<Tok>, ErrV> {
    match p {
        Payload::Path => Ok(Seq::empty()),
        Payload::List(t) => Ok(t@),
        Payload::NameValue(_) => Err(ErrV::UnsupportedPayloadShape),
    }
}

pub open spec fn parsed_view(r: Result<Parsed, ParseError>) -> Result<ParsedV, ErrV> {
    match r {
        Ok(p) => Ok(p@),
        Err(e) => Err(e@),
    }
}

impl ParseArgs {
    /// A description with no positional values and an empty keyword grammar.
    pub fn new() -> (r: ParseArgs)
        ensures
            r@.args.len() == 0,
            r@.opt_args.len() == 0,
            r@.rest_args is None,
            r@.meta == NodeV::Tuple(seq![]),
    {
        let meta = Node::tuple(Vec::new());
        proof {
            assert(meta@ == NodeV::Tuple(seq![])) by {
                assert(crate::meta::nodes_view(Seq::<Node>::empty()) =~= Seq::<NodeV>::empty());
            }
        }
        ParseArgs { args: Vec::new(), opt_args: Vec::new(), rest_args: None, meta }
    }

    /// This description, with required values of the given kinds.
    pub fn args(self, kinds: Vec<ValueKind>) -> (r: ParseArgs)
        ensures
            r@ == (ParseArgsV { args: kinds@, ..self@ }),
    {
        ParseArgs { args: kinds, ..self }
    }

    /// This description, with optional values of the given kinds.
    pub fn opt_args(self, kinds: Vec<ValueKind>) -> (r: ParseArgs)
        ensures
            r@ == (ParseArgsV { opt_args: kinds@, ..self@ }),
    {
        ParseArgs { opt_args: kinds, ..self }
    }

    /// This description, with a run of further values of kind `kind`.
    pub fn rest_args(self, kind: ValueKind) -> (r: ParseArgs)
        ensures
            r@ == (ParseArgsV { rest_args: Some(kind), ..self@ }),
    {
        ParseArgs { rest_args: Some(kind), ..self }
    }

    /// This description, with keyword grammar `meta`.
    pub fn meta(self, meta: Node) -> (r: ParseArgs)
        ensures
            r@ == (ParseArgsV { meta: meta@, ..self@ }),
    {
        ParseArgs { meta, ..self }
    }

    /// Parses a whole argument list.
    pub fn parse(self, toks: &Vec<Tok>) -> (r: Result<Parsed, ParseError>)
        ensures
            parsed_view(r) == parse_tokens(self@, toks@),
    {
        let ParseArgs { args, opt_args, rest_args, meta } = self;
        let (rv, after_req) = parse_required(&args, toks, 0)?;
        let (ov, after_opt) = parse_optional(&opt_args, toks, after_req)?;
        let (tv, after_rest) = match rest_args {
            Some(k) => parse_rest(k, toks, after_opt)?,
            None => (Vec::new(), after_opt),
        };
        let m = parse_section(meta, toks, after_rest)?;
        Ok(Parsed { args: rv, opt_args: ov, rest_args: tv, meta: m })
    }

    /// Parses the arguments of one annotation: none for `#[path]`, the list for
    /// `#[path(...)]`; `#[path = value]` is refused.
    pub fn parse_attr(self, attr: &Attr) -> (r: Result<Parsed, ParseError>)
        ensures
            parsed_view(r) == match payload_tokens(attr.payload) {
                Ok(t) => parse_tokens(self@, t),
                Err(x) => Err(x),
            },
    {
        match &attr.payload {
            Payload::Path => {
                let empty: Vec<Tok> = Vec::new();
                self.parse(&empty)
            },
            Payload::List(t) => self.parse(t),
            Payload::NameValue(_) => Err(ParseError::UnsupportedPayloadShape),
        }
    }

    /// Parses the lists of several annotations as one, each followed by `,` where it
    /// does not already end in one.
    pub fn parse_concat_attrs(self, attrs: Vec<Attr>) -> (r: Result<Parsed, ParseError>)
        ensures
            parsed_view(r) == match concat_lists(attrs@, attrs@.len() as int) {
                Ok(t) => parse_tokens(self@, t),
                Err(x) => Err(x),
            },
    {
        let ghost a0 = attrs@;
        let n = attrs.len();
        let mut rest = attrs;
        let mut toks: Vec<Tok> = Vec::new();
        let mut i: usize = 0;
        #[verifier::loop_isolation(false)]
        while i < n
            invariant
                i <= n == a0.len(),
                rest@ == a0.subrange(i as int, n as int),
                concat_lists(a0, i as int) == Ok::<Seq<Tok>, ErrV>(toks@),
            decreases n - i,
        {
            let a = rest.remove(0);
            assert(a == a0[i as int]);
            match a.payload {
                Payload::List(mut t) => {
                    let ghost tv = t@;
                    let trailing = t.len() > 0 && t[t.len() - 1].is_punct(',');
                    let empty = t.len() == 0;
                    toks.append(&mut t);
                    if !empty && !trailing {
                        toks.push(Tok::Punct(','));
                    }
                    proof {
                        let prev = concat_lists(a0, i as int)->Ok_0;
                        assert(toks@ =~= prev + spliced(tv));
                    }
                },
                _ => {
                    proof {
                        assert(!(a0[i as int].payload is List));
                        assert(concat_lists(a0, i as int + 1) is Err);
                        lemma_concat_err(a0, i as int + 1, n as int);
                    }
                    return Err(ParseError::UnsupportedPayloadShape);
                },
            }
            proof {
                assert(rest@ =~= a0.subrange(i + 1, n as int));
            }
            i = i + 1;
        }
        self.parse(&toks)
    }
}

proof fn lemma_concat_err(attrs: Seq<Attr>, j: int, k: int)
    requires
        0 <= j <= k,
        concat_lists(attrs, j) is Err,
    ensures
        concat_lists(attrs, k) == concat_lists(attrs, j),
    decreases k - j,
{
    if k > j {
        lemma_concat_err(attrs, j, k - 1);
    }
}

} // verus!
