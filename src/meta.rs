use vstd::prelude::*;

use crate::token::{find_comma, ident_text, is_group, is_punct, kind_accepts, lemma_next_comma, next_comma, Tok, ValueKind};

verus! {

broadcast use {
    vstd::std_specs::vec::axiom_vec_index_decreases,
    vstd::std_specs::vec::axiom_vec_decreases_to_view,
    vstd::seq::axiom_seq_index_decreases,
};

// ---------------------------------------------------------------------------
// Entries of a keyword section
// ---------------------------------------------------------------------------

/// What follows an entry's name.
#[derive(Clone, Copy, Debug, PartialEq, Eq, Structural)]
pub enum Shape {
    /// `name`, followed by `,` or the end of the section.
    Bare,
    /// `name = value`: the value is `toks[start..end]`, ending at the next `,`.
    Assign { start: usize, end: usize },
    /// `name(...)`: `toks[group]` is the parenthesized group.
    List { group: usize },
    /// Anything else after the name; no leaf claims it.
    Other,
}

/// One keyword entry, located in the token sequence of its section.
#[derive(Clone, Copy, Debug, PartialEq, Eq, Structural)]
pub struct Entry {
    /// Position of the entry's name.
    pub at: usize,
    pub shape: Shape,
}

/// The entry whose name stands at `pos`, or `None` when `toks[pos]` is no identifier.
pub open spec fn entry_at(toks: Seq<Tok>, pos: int) -> Option<Entry> {
    if !(0 <= pos < toks.len()) || !(toks[pos] is Ident) {
        None
    } else {
        let nx = pos + 1;
        let shape = if nx >= toks.len() || is_punct(toks[nx], ',') {
            Shape::Bare
        } else if is_punct(toks[nx], '=') {
            Shape::Assign { start: (nx + 1) as usize, end: next_comma(toks, nx + 1) as usize }
        } else if is_group(toks[nx]) && (nx + 1 >= toks.len() || is_punct(toks[nx + 1], ',')) {
            Shape::List { group: nx as usize }
        } else {
            Shape::Other
        };
        Some(Entry { at: pos as usize, shape })
    }
}

/// An entry read from `toks` at its own position.
pub open spec fn entry_wf(toks: Seq<Tok>, e: Entry) -> bool {
    entry_at(toks, e.at as int) == Some(e)
}

pub open spec fn entry_name(toks: Seq<Tok>, e: Entry) -> Seq<char> {
    ident_text(toks[e.at as int])
}

/// Position after the entry and its separating comma.
pub open spec fn entry_next(toks: Seq<Tok>, e: Entry) -> int {
    let end = match e.shape {
        Shape::Assign { start: _, end } => end as int,
        Shape::List { group } => group + 1,
        _ => e.at + 1,
    };
    if end < toks.len() {
        end + 1
    } else {
        end
    }
}

// ---------------------------------------------------------------------------
// Mathematical model of grammars, outputs and errors
// ---------------------------------------------------------------------------

pub enum LeafV {
    PathOnly(bool),
    KeyValue(ValueKind, Option<Tok>),
    KeyStr(Option<Seq<char>>),
    List(Box<NodeV>),
    ListDone(OutV),
}

pub enum NodeV {
    Named(Seq<char>, LeafV),
    Tuple(Seq<NodeV>),
    Conflicts(Seq<NodeV>, Option<(Seq<char>, int)>),
    Optional(Box<NodeV>),
    Value(Box<NodeV>, Seq<char>),
}

pub enum OutV {
    Flag(bool),
    Val(Tok),
    Text(Seq<char>),
    Opt(Option<Box<OutV>>),
    Tuple(Seq<OutV>),
}

pub enum ErrV {
    UnexpectedToken(int),
    TypeMismatch(int),
    DuplicateAttribute(Seq<char>),
    ConflictingAttribute(Seq<char>, Seq<char>),
    Unrecognized(Seq<char>),
    MissingRequired(Seq<char>),
    MissingOneOf(Seq<char>),
    UnsupportedPayloadShape,
    ConflictingDeclaration(Seq<char>),
}

/// Offers entry `e` to grammar `n`: the grammar's new state and whether it claimed the entry.
pub open spec fn step(n: NodeV, toks: Seq<Tok>, e: Entry) -> Result<(NodeV, bool), ErrV>
    decreases toks, 0int, n, 0int,
{
    match n {
        NodeV::Named(name, leaf) => {
            if name != entry_name(toks, e) {
                Ok((n, false))
            } else {
                match step_leaf(leaf, toks, e) {
                    Ok((l2, c)) => Ok((NodeV::Named(name, l2), c)),
                    Err(x) => Err(x),
                }
            }
        },
        NodeV::Tuple(cs) => match step_first(cs, 0, toks, e) {
            Ok((cs2, k)) => Ok((NodeV::Tuple(cs2), k >= 0)),
            Err(x) => Err(x),
        },
        NodeV::Conflicts(alts, sel) => match step_first(alts, 0, toks, e) {
            Ok((alts2, k)) => {
                if k < 0 {
                    Ok((n, false))
                } else {
                    match sel {
                        Some((s, _)) => Err(ErrV::ConflictingAttribute(entry_name(toks, e), s)),
                        None => Ok((NodeV::Conflicts(alts2, Some((entry_name(toks, e), k))), true)),
                    }
                }
            },
            Err(x) => Err(x),
        },
        NodeV::Optional(b) => match step(*b, toks, e) {
            Ok((b2, c)) => Ok((NodeV::Optional(Box::new(b2)), c)),
            Err(x) => Err(x),
        },
        NodeV::Value(b, tag) => match step(*b, toks, e) {
            Ok((b2, c)) => Ok((NodeV::Value(Box::new(b2), tag), c)),
            Err(x) => Err(x),
        },
    }
}

/// Offers `e` to `cs[i..]` in order; the first that claims it is updated, and its index
/// returned (`-1` when none claims it).
pub open spec fn step_first(cs: Seq<NodeV>, i: int, toks: Seq<Tok>, e: Entry) -> Result<(Seq<NodeV>, int), ErrV>
    decreases toks, 0int, cs, cs.len() - i,
{
    if i < 0 || i >= cs.len() {
        Ok((cs, -1))
    } else {
        match step(cs[i], toks, e) {
            Ok((c2, true)) => Ok((cs.update(i, c2), i)),
            Ok((_, false)) => step_first(cs, i + 1, toks, e),
            Err(x) => Err(x),
        }
    }
}

/// Offers `e`, whose name matched, to a leaf.
pub open spec fn step_leaf(l: LeafV, toks: Seq<Tok>, e: Entry) -> Result<(LeafV, bool), ErrV>
    decreases toks, 0int, l, 0int,
{
    match l {
        LeafV::PathOnly(_) => if e.shape is Bare {
            Ok((LeafV::PathOnly(true), true))
        } else {
            Ok((l, false))
        },
        LeafV::KeyValue(k, _) => match e.shape {
            Shape::Assign { start, end } => if end == start + 1 && kind_accepts(k, toks[start as int]) {
                Ok((LeafV::KeyValue(k, Some(toks[start as int])), true))
            } else {
                Err(ErrV::TypeMismatch(start as int))
            },
            _ => Ok((l, false)),
        },
        LeafV::KeyStr(_) => match e.shape {
            Shape::Assign { start, end } => if end == start + 1 && toks[start as int] is Str {
                Ok((LeafV::KeyStr(Some(toks[start as int]->Str_0@)), true))
            } else {
                Err(ErrV::TypeMismatch(start as int))
            },
            _ => Ok((l, false)),
        },
        LeafV::ListDone(_) => Ok((l, false)),
        LeafV::List(inner) => match e.shape {
            Shape::List { group } => if group < toks.len() {
                match toks[group as int] {
                    Tok::Group(g) => match scan(*inner, g@, 0, seq![]) {
                        Ok(o) => Ok((LeafV::ListDone(o), true)),
                        Err(x) => Err(x),
                    },
                    _ => Ok((l, false)),
                }
            } else {
                Ok((l, false))
            },
            _ => Ok((l, false)),
        },
    }
}

/// Scans the keyword section `toks[pos..]` with grammar `n`, `seen` holding the names
/// claimed so far, and finalizes the grammar at its end.
pub open spec fn scan(n: NodeV, toks: Seq<Tok>, pos: int, seen: Seq<Seq<char>>) -> Result<OutV, ErrV>
    decreases toks, 1int, toks, toks.len() - pos,
{
    if pos < 0 || pos >= toks.len() {
        finish(n)
    } else {
        match entry_at(toks, pos) {
            None => Err(ErrV::UnexpectedToken(pos)),
            Some(e) => {
                let name = entry_name(toks, e);
                if seen.contains(name) {
                    Err(ErrV::DuplicateAttribute(name))
                } else {
                    match step(n, toks, e) {
                        Err(x) => Err(x),
                        Ok((_, false)) => Err(ErrV::Unrecognized(name)),
                        Ok((n2, true)) => if pos < entry_next(toks, e) <= toks.len() {
                            scan(n2, toks, entry_next(toks, e), seen.push(name))
                        } else {
                            Err(ErrV::UnexpectedToken(pos))
                        },
                    }
                }
            },
        }
    }
}

/// Whether a grammar can be finalized as it stands.
pub open spec fn ok(n: NodeV) -> bool
    decreases n,
{
    match n {
        NodeV::Named(_, leaf) => match leaf {
            LeafV::PathOnly(_) => true,
            LeafV::KeyValue(_, v) => v is Some,
            LeafV::KeyStr(v) => v is Some,
            LeafV::List(_) => false,
            LeafV::ListDone(_) => true,
        },
        NodeV::Tuple(cs) => forall|i: int| 0 <= i < cs.len() ==> ok(#[trigger] cs[i]),
        NodeV::Conflicts(_, sel) => sel is Some,
        NodeV::Optional(_) => true,
        NodeV::Value(b, _) => ok(*b),
    }
}

/// The output of a grammar at the end of its section.
pub open spec fn finish(n: NodeV) -> Result<OutV, ErrV>
    decreases n, 0int,
{
    match n {
        NodeV::Named(name, leaf) => match leaf {
            LeafV::PathOnly(a) => Ok(OutV::Flag(a)),
            LeafV::KeyValue(_, v) => match v {
                Some(t) => Ok(OutV::Val(t)),
                None => Err(ErrV::MissingRequired(name)),
            },
            LeafV::KeyStr(v) => match v {
                Some(s) => Ok(OutV::Text(s)),
                None => Err(ErrV::MissingRequired(name)),
            },
            LeafV::ListDone(o) => Ok(o),
            LeafV::List(inner) => match finish(*inner) {
                Ok(o) => Ok(o),
                Err(_) => Err(ErrV::MissingRequired(name)),
            },
        },
        NodeV::Tuple(cs) => match finish_prefix(cs, cs.len() as int) {
            Ok(os) => Ok(OutV::Tuple(os)),
            Err(x) => Err(x),
        },
        NodeV::Conflicts(alts, sel) => match sel {
            Some((_, k)) => if 0 <= k < alts.len() {
                finish(alts[k])
            } else {
                Err(ErrV::MissingOneOf(describe_prefix(alts, alts.len() as int)))
            },
            None => Err(ErrV::MissingOneOf(describe_prefix(alts, alts.len() as int))),
        },
        NodeV::Optional(b) => if ok(*b) {
            match finish(*b) {
                Ok(o) => Ok(OutV::Opt(Some(Box::new(o)))),
                Err(x) => Err(x),
            }
        } else {
            Ok(OutV::Opt(None))
        },
        NodeV::Value(b, tag) => match finish(*b) {
            Ok(_) => Ok(OutV::Text(tag)),
            Err(x) => Err(x),
        },
    }
}

/// The outputs of `cs[..k]` in order, or the first error among them.
pub open spec fn finish_prefix(cs: Seq<NodeV>, k: int) -> Result<Seq<OutV>, ErrV>
    decreases cs, k,
{
    if k <= 0 || k > cs.len() {
        Ok(Seq::empty())
    } else {
        match finish_prefix(cs, k - 1) {
            Ok(os) => match finish(cs[k - 1]) {
                Ok(o) => Ok(os.push(o)),
                Err(x) => Err(x),
            },
            Err(x) => Err(x),
        }
    }
}

/// The text that names the accepted forms of a grammar in diagnostics.
pub open spec fn describe(n: NodeV) -> Seq<char>
    decreases n, 0int,
{
    match n {
        NodeV::Named(name, _) => "`"@ + name + "`"@,
        NodeV::Tuple(cs) => describe_prefix(cs, cs.len() as int),
        NodeV::Conflicts(alts, _) => "(conflict group: "@ + describe_prefix(alts, alts.len() as int) + ")"@,
        NodeV::Optional(b) => describe(*b),
        NodeV::Value(b, _) => describe(*b),
    }
}

/// The descriptions of `cs[..k]`, separated by `, `.
pub open spec fn describe_prefix(cs: Seq<NodeV>, k: int) -> Seq<char>
    decreases cs, k,
{
    if k <= 0 || k > cs.len() {
        Seq::empty()
    } else if k == 1 {
        describe(cs[0])
    } else {
        describe_prefix(cs, k - 1) + ", "@ + describe(cs[k - 1])
    }
}

// ---------------------------------------------------------------------------
// Executable grammars
// ---------------------------------------------------------------------------

/// A bare flag: `name`.
pub struct PathOnly {
    assigned: bool,
}

/// An assignment `name = value` whose value is one token of a given kind.
pub struct KeyValue {
    kind: ValueKind,
    value: Option<Tok>,
}

/// An assignment `name = "text"` whose value is a string literal.
pub struct KeyStr {
    value: Option<String>,
}

/// A nested list `name(...)`, whose contents are a keyword section of their own.
pub struct List {
    state: ListState,
}

enum ListState {
    Unassigned(Box<Node>),
    Assigned(Out),
}

pub enum Leaf {
    PathOnly(PathOnly),
    KeyValue(KeyValue),
    KeyStr(KeyStr),
    List(List),
}

/// A grammar whose absence is no error.
pub struct Optional {
    inner: Box<Node>,
}

/// Mutually exclusive alternatives, of which exactly one must be given.
pub struct Conflicts {
    alts: Vec<Node>,
    selected: Option<(String, usize)>,
}

/// A grammar whose output is replaced by a fixed tag.
pub struct MapValue {
    inner: Box<Node>,
    tag: String,
}

/// A keyword grammar, together with what it has matched so far.
pub enum Node {
    Named(String, Leaf),
    Tuple(Vec<Node>),
    Conflicts(Conflicts),
    Optional(Optional),
    Value(MapValue),
}

/// The output of a keyword grammar.
#[derive(Debug, PartialEq, Eq)]
pub enum Out {
    Flag(bool),
    Val(Tok),
    Text(String),
    Opt(Option<Box<Out>>),
    Tuple(Vec<Out>),
}

#[derive(Debug, PartialEq, Eq)]
pub enum ParseError {
    /// A token where the grammar admits none of that shape, at the given position.
    UnexpectedToken(usize),
    /// A value of the wrong kind, at the given position.
    TypeMismatch(usize),
    DuplicateAttribute(String),
    /// The newly given alternative and the one given before it.
    ConflictingAttribute(String, String),
    /// A name the grammar does not know, or given in a form it does not accept.
    Unrecognized(String),
    MissingRequired(String),
    /// The accepted alternatives, as described in diagnostics.
    MissingOneOf(String),
    UnsupportedPayloadShape,
    ConflictingDeclaration(String),
}

pub closed spec fn node_view(n: Node) -> NodeV
    decreases n,
{
    match n {
        Node::Named(name, leaf) => NodeV::Named(name@, leaf_view(leaf)),
        Node::Tuple(cs) => NodeV::Tuple(
            Seq::new(cs.len() as nat, |i: int| if 0 <= i < cs.len() { node_view(cs[i]) } else { NodeV::Tuple(seq![]) }),
        ),
        Node::Conflicts(c) => NodeV::Conflicts(
            Seq::new(c.alts.len() as nat, |i: int| if 0 <= i < c.alts.len() { node_view(c.alts[i]) } else { NodeV::Tuple(seq![]) }),
            match c.selected {
                Some((s, k)) => Some((s@, k as int)),
                None => None,
            },
        ),
        Node::Optional(o) => NodeV::Optional(Box::new(node_view(*o.inner))),
        Node::Value(m) => NodeV::Value(Box::new(node_view(*m.inner)), m.tag@),
    }
}

pub closed spec fn leaf_view(l: Leaf) -> LeafV
    decreases l,
{
    match l {
        Leaf::PathOnly(p) => LeafV::PathOnly(p.assigned),
        Leaf::KeyValue(k) => LeafV::KeyValue(k.kind, k.value),
        Leaf::KeyStr(k) => LeafV::KeyStr(
            match k.value {
                Some(s) => Some(s@),
                None => None,
            },
        ),
        Leaf::List(li) => match li.state {
            ListState::Unassigned(inner) => LeafV::List(Box::new(node_view(*inner))),
            ListState::Assigned(o) => LeafV::ListDone(out_view(o)),
        },
    }
}

pub closed spec fn out_view(o: Out) -> OutV
    decreases o,
{
    match o {
        Out::Flag(b) => OutV::Flag(b),
        Out::Val(t) => OutV::Val(t),
        Out::Text(s) => OutV::Text(s@),
        Out::Opt(x) => OutV::Opt(
            match x {
                Some(b) => Some(Box::new(out_view(*b))),
                None => None,
            },
        ),
        Out::Tuple(os) => OutV::Tuple(
            Seq::new(os.len() as nat, |i: int| if 0 <= i < os.len() { out_view(os[i]) } else { OutV::Flag(false) }),
        ),
    }
}

pub open spec fn nodes_view(cs: Seq<Node>) -> Seq<NodeV> {
    Seq::new(cs.len(), |i: int| node_view(cs[i]))
}

pub open spec fn outs_view(os: Seq<Out>) -> Seq<OutV> {
    Seq::new(os.len(), |i: int| out_view(os[i]))
}

impl View for Node {
    type V = NodeV;

    open spec fn view(&self) -> NodeV {
        node_view(*self)
    }
}

impl View for Out {
    type V = OutV;

    open spec fn view(&self) -> OutV {
        out_view(*self)
    }
}

impl View for ParseError {
    type V = ErrV;

    open spec fn view(&self) -> ErrV {
        match self {
            ParseError::UnexpectedToken(p) => ErrV::UnexpectedToken(*p as int),
            ParseError::TypeMismatch(p) => ErrV::TypeMismatch(*p as int),
            ParseError::DuplicateAttribute(s) => ErrV::DuplicateAttribute(s@),
            ParseError::ConflictingAttribute(a, b) => ErrV::ConflictingAttribute(a@, b@),
            ParseError::Unrecognized(s) => ErrV::Unrecognized(s@),
            ParseError::MissingRequired(s) => ErrV::MissingRequired(s@),
            ParseError::MissingOneOf(s) => ErrV::MissingOneOf(s@),
            ParseError::UnsupportedPayloadShape => ErrV::UnsupportedPayloadShape,
            ParseError::ConflictingDeclaration(s) => ErrV::ConflictingDeclaration(s@),
        }
    }
}

/// The view of a result whose success value has a view.
pub open spec fn res_view<T: View>(r: Result<T, ParseError>) -> Result<T::V, ErrV> {
    match r {
        Ok(v) => Ok(v@),
        Err(e) => Err(e@),
    }
}

pub open spec fn claim_view(r: Result<(Node, bool), ParseError>) -> Result<(NodeV, bool), ErrV> {
    match r {
        Ok((n, c)) => Ok((n@, c)),
        Err(e) => Err(e@),
    }
}

/// Relies on String::push_str: the text is appended.
#[verifier::external_body]
fn push_str(buf: &mut String, s: &str)
    ensures
        final(buf)@ == old(buf)@ + s@,
{
    buf.push_str(s)
}

/// A bare flag, unmatched.
pub fn path_only() -> (r: PathOnly)
    ensures
        leaf_view(Leaf::PathOnly(r)) == LeafV::PathOnly(false),
{
    PathOnly { assigned: false }
}

/// An assignment of one value of kind `kind`, unmatched.
pub fn key_value(kind: ValueKind) -> (r: KeyValue)
    ensures
        leaf_view(Leaf::KeyValue(r)) == LeafV::KeyValue(kind, None),
{
    KeyValue { kind, value: None }
}

/// An assignment of a string literal, unmatched.
pub fn key_str() -> (r: KeyStr)
    ensures
        leaf_view(Leaf::KeyStr(r)) == LeafV::KeyStr(None),
{
    KeyStr { value: None }
}

/// A nested list whose contents are parsed with `inner`, unmatched.
pub fn list(inner: Node) -> (r: List)
    ensures
        leaf_view(Leaf::List(r)) == LeafV::List(Box::new(inner@)),
{
    List { state: ListState::Unassigned(Box::new(inner)) }
}

/// Mutually exclusive alternatives, none selected yet.
pub fn conflicts(alts: Vec<Node>) -> (r: Node)
    ensures
        r@ == NodeV::Conflicts(nodes_view(alts@), None),
{
    let r = Node::Conflicts(Conflicts { alts, selected: None });
    proof {
        assert(nodes_view(alts@) =~= node_view(r)->Conflicts_0);
    }
    r
}

impl Leaf {
    /// This leaf under the entry name `name`.
    pub fn named(self, name: &str) -> (r: Node)
        ensures
            r@ == NodeV::Named(name@, leaf_view(self)),
    {
        Node::Named(name.to_owned(), self)
    }
}

impl PathOnly {
    pub fn named(self, name: &str) -> (r: Node)
        ensures
            r@ == NodeV::Named(name@, leaf_view(Leaf::PathOnly(self))),
    {
        Leaf::PathOnly(self).named(name)
    }
}

impl KeyValue {
    pub fn named(self, name: &str) -> (r: Node)
        ensures
            r@ == NodeV::Named(name@, leaf_view(Leaf::KeyValue(self))),
    {
        Leaf::KeyValue(self).named(name)
    }
}

impl KeyStr {
    pub fn named(self, name: &str) -> (r: Node)
        ensures
            r@ == NodeV::Named(name@, leaf_view(Leaf::KeyStr(self))),
    {
        Leaf::KeyStr(self).named(name)
    }
}

impl List {
    pub fn named(self, name: &str) -> (r: Node)
        ensures
            r@ == NodeV::Named(name@, leaf_view(Leaf::List(self))),
    {
        Leaf::List(self).named(name)
    }
}

impl Node {
    /// The grammars `cs`, each claiming its own entries.
    pub fn tuple(cs: Vec<Node>) -> (r: Node)
        ensures
            r@ == NodeV::Tuple(nodes_view(cs@)),
    {
        let r = Node::Tuple(cs);
        proof {
            assert(nodes_view(cs@) =~= node_view(r)->Tuple_0);
        }
        r
    }

    /// This grammar, with its absence allowed.
    pub fn optional(self) -> (r: Node)
        ensures
            r@ == NodeV::Optional(Box::new(self@)),
    {
        Node::Optional(Optional { inner: Box::new(self) })
    }

    /// This grammar, with its output replaced by `tag`.
    pub fn value(self, tag: &str) -> (r: Node)
        ensures
            r@ == NodeV::Value(Box::new(self@), tag@),
    {
        Node::Value(MapValue { inner: Box::new(self), tag: tag.to_owned() })
    }

    /// Whether this grammar can be finalized as it stands.
    pub fn ok_to_finish(&self) -> (r: bool)
        ensures
            r == ok(self@),
        decreases self,
    {
        match self {
            Node::Named(name, leaf) => {
                proof {
                    assert(self@ == NodeV::Named(name@, leaf_view(*leaf)));
                }
                match leaf {
                    Leaf::PathOnly(_) => true,
                    Leaf::KeyValue(k) => k.value.is_some(),
                    Leaf::KeyStr(k) => k.value.is_some(),
                    Leaf::List(l) => match l.state {
                        ListState::Unassigned(_) => false,
                        ListState::Assigned(_) => true,
                    },
                }
            },
            Node::Tuple(cs) => {
                let ghost v = self@;
                proof {
                    assert(v->Tuple_0 =~= nodes_view(cs@));
                }
                let mut i: usize = 0;
                #[verifier::loop_isolation(false)]
                while i < cs.len()
                    invariant
                        i <= cs@.len(),
                        v == NodeV::Tuple(nodes_view(cs@)),
                        forall|j: int| 0 <= j < i ==> ok(#[trigger] nodes_view(cs@)[j]),
                    decreases cs@.len() - i,
                {
                    proof {
                        assert(decreases_to!(cs => cs[i as int]));
                    }
                    if !cs[i].ok_to_finish() {
                        assert(!ok(nodes_view(cs@)[i as int]));
                        return false;
                    }
                    i = i + 1;
                }
                true
            },
            Node::Conflicts(c) => c.selected.is_some(),
            Node::Optional(_) => true,
            Node::Value(m) => m.inner.ok_to_finish(),
        }
    }

    /// Appends the description of this grammar to `buf`.
    pub fn describe(&self, buf: &mut String)
        ensures
            final(buf)@ == old(buf)@ + describe(self@),
        decreases self,
    {
        match self {
            Node::Named(name, _) => {
                let ghost b0 = buf@;
                push_str(buf, "`");
                push_str(buf, name.as_str());
                push_str(buf, "`");
                proof {
                    assert(buf@ =~= b0 + describe(self@));
                }
            },
            Node::Tuple(cs) => {
                proof {
                    assert(self@->Tuple_0 =~= nodes_view(cs@));
                }
                describe_all(cs, buf);
            },
            Node::Conflicts(c) => {
                let ghost b0 = buf@;
                proof {
                    assert(self@->Conflicts_0 =~= nodes_view(c.alts@));
                }
                push_str(buf, "(conflict group: ");
                describe_all(&c.alts, buf);
                push_str(buf, ")");
                proof {
                    assert(buf@ =~= b0 + describe(self@));
                }
            },
            Node::Optional(o) => o.inner.describe(buf),
            Node::Value(m) => m.inner.describe(buf),
        }
    }

    /// The output of this grammar at the end of its section.
    pub fn finish(self) -> (r: Result<Out, ParseError>)
        ensures
            res_view(r) == finish(self@),
        decreases self, 0int,
    {
        let ghost v = self@;
        match self {
            Node::Named(name, leaf) => {
                proof {
                    assert(v == NodeV::Named(name@, leaf_view(leaf)));
                }
                match leaf {
                    Leaf::PathOnly(p) => Ok(Out::Flag(p.assigned)),
                    Leaf::KeyValue(k) => match k.value {
                        Some(t) => Ok(Out::Val(t)),
                        None => Err(ParseError::MissingRequired(name)),
                    },
                    Leaf::KeyStr(k) => match k.value {
                        Some(s) => Ok(Out::Text(s)),
                        None => Err(ParseError::MissingRequired(name)),
                    },
                    Leaf::List(l) => match l.state {
                        ListState::Assigned(o) => Ok(o),
                        ListState::Unassigned(inner) => match inner.finish() {
                            Ok(o) => Ok(o),
                            Err(_) => Err(ParseError::MissingRequired(name)),
                        },
                    },
                }
            },
            Node::Tuple(cs) => {
                proof {
                    assert(v->Tuple_0 =~= nodes_view(cs@));
                }
                match finish_all(cs) {
                    Ok(os) => {
                        let r = Out::Tuple(os);
                        proof {
                            assert(out_view(r)->Tuple_0 =~= outs_view(os@));
                        }
                        Ok(r)
                    },
                    Err(x) => Err(x),
                }
            },
            Node::Conflicts(c) => {
                let Conflicts { mut alts, selected } = c;
                proof {
                    assert(v->Conflicts_0 =~= nodes_view(alts@));
                }
                match selected {
                    Some((_, k)) => {
                        if k < alts.len() {
                            let a = alts.remove(k);
                            return a.finish();
                        }
                    },
                    None => {},
                }
                let mut msg = String::new();
                describe_all(&alts, &mut msg);
                proof {
                    assert(msg@ =~= describe_prefix(nodes_view(alts@), alts@.len() as int));
                }
                Err(ParseError::MissingOneOf(msg))
            },
            Node::Optional(o) => {
                if o.inner.ok_to_finish() {
                    match o.inner.finish() {
                        Ok(x) => Ok(Out::Opt(Some(Box::new(x)))),
                        Err(x) => Err(x),
                    }
                } else {
                    Ok(Out::Opt(None))
                }
            },
            Node::Value(m) => match m.inner.finish() {
                Ok(_) => Ok(Out::Text(m.tag)),
                Err(x) => Err(x),
            },
        }
    }
}

/// Appends the descriptions of `cs`, separated by `, `, to `buf`.
fn describe_all(cs: &Vec<Node>, buf: &mut String)
    ensures
        final(buf)@ == old(buf)@ + describe_prefix(nodes_view(cs@), cs@.len() as int),
    decreases cs, 1int,
{
    let ghost vs = nodes_view(cs@);
    let ghost start = buf@;
    let mut i: usize = 0;
    while i < cs.len()
        invariant
            i <= cs@.len(),
            vs == nodes_view(cs@),
            buf@ == start + describe_prefix(vs, i as int),
        decreases cs@.len() - i,
    {
        if i > 0 {
            push_str(buf, ", ");
        }
        proof {
            assert(decreases_to!(cs => cs[i as int]));
        }
        cs[i].describe(buf);
        proof {
            assert(start + describe_prefix(vs, i + 1) =~= buf@);
        }
        i = i + 1;
    }
}

/// The outputs of `cs` in order, or the first error among them.
fn finish_all(cs: Vec<Node>) -> (r: Result<Vec<Out>, ParseError>)
    ensures
        match (r, finish_prefix(nodes_view(cs@), cs@.len() as int)) {
            (Ok(os), Ok(vs)) => outs_view(os@) == vs,
            (Err(e), Err(x)) => e@ == x,
            _ => false,
        },
    decreases cs, 1int,
{
    let ghost cs0 = cs@;
    let ghost cs_entry = cs;
    let ghost vs = nodes_view(cs@);
    let mut rest = cs;
    let mut os: Vec<Out> = Vec::new();
    proof {
        assert(outs_view(os@) =~= Seq::<OutV>::empty());
        assert(rest@ =~= cs0.subrange(0, cs0.len() as int));
    }
    let mut i: usize = 0;
    let n = rest.len();
    #[verifier::loop_isolation(false)]
    while i < n
        invariant
            i <= n == cs0.len(),
            vs == nodes_view(cs0),
            rest@ == cs0.subrange(i as int, n as int),
            finish_prefix(vs, i as int) == Ok::<Seq<OutV>, ErrV>(outs_view(os@)),
        decreases n - i,
    {
        let c = rest.remove(0);
        proof {
            assert(c == cs0[i as int]);
            assert(decreases_to!(cs_entry => cs_entry[i as int]));
        }
        match c.finish() {
            Ok(o) => {
                let ghost before = os@;
                let ghost ov = o@;
                os.push(o);
                proof {
                    assert(outs_view(os@) =~= outs_view(before).push(ov));
                }
            },
            Err(x) => {
                proof {
                    lemma_finish_prefix_err(vs, i + 1, n as int);
                }
                return Err(x);
            },
        }
        proof {
            assert(rest@ =~= cs0.subrange(i + 1, n as int));
        }
        i = i + 1;
    }
    Ok(os)
}

/// Once a prefix fails to finish, every longer prefix fails with the same error.
proof fn lemma_finish_prefix_err(cs: Seq<NodeV>, j: int, k: int)
    requires
        0 <= j <= k <= cs.len(),
        finish_prefix(cs, j) is Err,
    ensures
        finish_prefix(cs, k) == finish_prefix(cs, j),
    decreases k - j,
{
    if k > j {
        lemma_finish_prefix_err(cs, j, k - 1);
    }
}

// ---------------------------------------------------------------------------
// Scanning a keyword section
// ---------------------------------------------------------------------------

pub open spec fn names_view(names: Seq<String>) -> Seq<Seq<char>> {
    Seq::new(names.len(), |i: int| names[i]@)
}

/// The entry whose name stands at `pos`, or `None` when `toks[pos]` is no identifier.
pub fn read_entry(toks: &Vec<Tok>, pos: usize) -> (r: Option<Entry>)
    requires
        pos < toks@.len(),
    ensures
        r == entry_at(toks@, pos as int),
{
    match &toks[pos] {
        Tok::Ident(_) => {},
        _ => {
            return None;
        },
    }
    let len = toks.len();
    let nx = pos + 1;
    let shape = if nx >= toks.len() || toks[nx].is_punct(',') {
        Shape::Bare
    } else if toks[nx].is_punct('=') {
        let end = find_comma(toks, nx + 1);
        Shape::Assign { start: nx + 1, end }
    } else if matches!(toks[nx], Tok::Group(_)) && (nx + 1 >= toks.len() || toks[nx + 1].is_punct(',')) {
        Shape::List { group: nx }
    } else {
        Shape::Other
    };
    Some(Entry { at: pos, shape })
}

/// The name of a well-formed entry.
fn entry_name_of(toks: &Vec<Tok>, e: Entry) -> (r: String)
    requires
        entry_wf(toks@, e),
    ensures
        r@ == entry_name(toks@, e),
{
    match &toks[e.at] {
        Tok::Ident(s) => s.clone(),
        _ => String::new(),
    }
}

/// Whether `name` is the name of a well-formed entry.
fn entry_named(toks: &Vec<Tok>, e: Entry, name: &String) -> (r: bool)
    requires
        entry_wf(toks@, e),
    ensures
        r == (name@ == entry_name(toks@, e)),
{
    match &toks[e.at] {
        Tok::Ident(s) => name.eq(s),
        _ => false,
    }
}

/// The position after a well-formed entry and its separating comma.
fn next_entry(toks: &Vec<Tok>, e: Entry) -> (r: usize)
    requires
        entry_wf(toks@, e),
    ensures
        r == entry_next(toks@, e),
        e.at < r <= toks@.len(),
{
    let len = toks.len();
    proof {
        if e.shape is Assign {
            lemma_next_comma(toks@, e.at + 2);
        }
    }
    let end = match e.shape {
        Shape::Assign { start: _, end } => end,
        Shape::List { group } => group + 1,
        _ => e.at + 1,
    };
    if end < toks.len() {
        end + 1
    } else {
        end
    }
}

fn contains_name(names: &Vec<String>, name: &String) -> (r: bool)
    ensures
        r == names_view(names@).contains(name@),
{
    let mut i: usize = 0;
    while i < names.len()
        invariant
            i <= names@.len(),
            forall|j: int| 0 <= j < i ==> names@[j]@ != name@,
        decreases names@.len() - i,
    {
        if names[i].eq(name) {
            assert(names_view(names@)[i as int] == name@);
            return true;
        }
        i = i + 1;
    }
    proof {
        if names_view(names@).contains(name@) {
            let j = choose|j: int| 0 <= j < names_view(names@).len() && names_view(names@)[j] == name@;
            assert(names@[j]@ == name@);
        }
    }
    false
}

impl Node {
    /// Offers entry `e` to this grammar: its new state, and whether it claimed the entry.
    pub fn parse(self, toks: &Vec<Tok>, e: Entry) -> (r: Result<(Node, bool), ParseError>)
        requires
            entry_wf(toks@, e),
        ensures
            claim_view(r) == step(self@, toks@, e),
            r matches Ok((n, false)) ==> n@ == self@,
        decreases toks@, 0int, self, 0int,
    {
        let ghost v = self@;
        match self {
            Node::Named(name, leaf) => {
                proof {
                    assert(v == NodeV::Named(name@, leaf_view(leaf)));
                }
                if !entry_named(toks, e, &name) {
                    return Ok((Node::Named(name, leaf), false));
                }
                match leaf.parse(toks, e) {
                    Ok((l2, c)) => Ok((Node::Named(name, l2), c)),
                    Err(x) => Err(x),
                }
            },
            Node::Tuple(cs) => {
                proof {
                    assert(v->Tuple_0 =~= nodes_view(cs@));
                }
                match parse_first(cs, toks, e) {
                    Ok((cs2, k)) => {
                        let r = Node::Tuple(cs2);
                        proof {
                            assert(node_view(r)->Tuple_0 =~= nodes_view(cs2@));
                        }
                        Ok((r, k.is_some()))
                    },
                    Err(x) => Err(x),
                }
            },
            Node::Conflicts(c) => {
                let Conflicts { alts, selected } = c;
                proof {
                    assert(v->Conflicts_0 =~= nodes_view(alts@));
                }
                match parse_first(alts, toks, e) {
                    Err(x) => Err(x),
                    Ok((alts2, k)) => {
                        match k {
                            None => {
                                let r = Node::Conflicts(Conflicts { alts: alts2, selected });
                                proof {
                                    assert(node_view(r)->Conflicts_0 =~= nodes_view(alts2@));
                                }
                                Ok((r, false))
                            },
                            Some(k) => match selected {
                                Some((s, _)) => Err(ParseError::ConflictingAttribute(entry_name_of(toks, e), s)),
                                None => {
                                    let r = Node::Conflicts(Conflicts { alts: alts2, selected: Some((entry_name_of(toks, e), k)) });
                                    proof {
                                        assert(node_view(r)->Conflicts_0 =~= nodes_view(alts2@));
                                    }
                                    Ok((r, true))
                                },
                            },
                        }
                    },
                }
            },
            Node::Optional(o) => match o.inner.parse(toks, e) {
                Ok((n2, c)) => Ok((Node::Optional(Optional { inner: Box::new(n2) }), c)),
                Err(x) => Err(x),
            },
            Node::Value(m) => match m.inner.parse(toks, e) {
                Ok((n2, c)) => Ok((Node::Value(MapValue { inner: Box::new(n2), tag: m.tag }), c)),
                Err(x) => Err(x),
            },
        }
    }
}

impl Leaf {
    /// Offers entry `e`, whose name matched, to this leaf.
    fn parse(self, toks: &Vec<Tok>, e: Entry) -> (r: Result<(Leaf, bool), ParseError>)
        requires
            entry_wf(toks@, e),
        ensures
            match (r, step_leaf(leaf_view(self), toks@, e)) {
                (Ok((l, c)), Ok((lv, cv))) => leaf_view(l) == lv && c == cv,
                (Err(x), Err(y)) => x@ == y,
                _ => false,
            },
            r matches Ok((l, false)) ==> leaf_view(l) == leaf_view(self),
        decreases toks@, 0int, self, 0int,
    {
        proof {
            if e.shape is Assign {
                lemma_next_comma(toks@, e.at + 2);
            }
        }
        match self {
            Leaf::PathOnly(p) => match e.shape {
                Shape::Bare => Ok((Leaf::PathOnly(PathOnly { assigned: true }), true)),
                _ => Ok((Leaf::PathOnly(p), false)),
            },
            Leaf::KeyValue(k) => match e.shape {
                Shape::Assign { start, end } => {
                    if end > start && end - start == 1 && k.kind.accepts(&toks[start]) {
                        let t = toks[start].copy_leaf();
                        Ok((Leaf::KeyValue(KeyValue { kind: k.kind, value: Some(t) }), true))
                    } else {
                        Err(ParseError::TypeMismatch(start))
                    }
                },
                _ => Ok((Leaf::KeyValue(k), false)),
            },
            Leaf::KeyStr(k) => match e.shape {
                Shape::Assign { start, end } => {
                    if end > start && end - start == 1 {
                        match &toks[start] {
                            Tok::Str(s) => Ok((Leaf::KeyStr(KeyStr { value: Some(s.clone()) }), true)),
                            _ => Err(ParseError::TypeMismatch(start)),
                        }
                    } else {
                        Err(ParseError::TypeMismatch(start))
                    }
                },
                _ => Ok((Leaf::KeyStr(k), false)),
            },
            Leaf::List(l) => match l.state {
                ListState::Assigned(o) => Ok((Leaf::List(List { state: ListState::Assigned(o) }), false)),
                ListState::Unassigned(inner) => match e.shape {
                    Shape::List { group } => match &toks[group] {
                        Tok::Group(g) => {
                            proof {
                                assert(decreases_to!(toks@ => toks@[group as int]));
                                assert(decreases_to!(toks@[group as int] => *g));
                                assert(decreases_to!(*g => g@));
                            }
                            match parse_section(*inner, g, 0) {
                                Ok(o) => Ok((Leaf::List(List { state: ListState::Assigned(o) }), true)),
                                Err(x) => Err(x),
                            }
                        },
                        _ => Ok((Leaf::List(List { state: ListState::Unassigned(inner) }), false)),
                    },
                    _ => Ok((Leaf::List(List { state: ListState::Unassigned(inner) }), false)),
                },
            },
        }
    }
}

/// Offers `e` to the grammars `cs` in order; the first that claims it is updated, and its
/// index returned.
fn parse_first(cs: Vec<Node>, toks: &Vec<Tok>, e: Entry) -> (r: Result<(Vec<Node>, Option<usize>), ParseError>)
    requires
        entry_wf(toks@, e),
    ensures
        match (r, step_first(nodes_view(cs@), 0, toks@, e)) {
            (Ok((cs2, k)), Ok((vs, kv))) => nodes_view(cs2@) == vs && match k {
                Some(i) => i as int == kv,
                None => kv == -1,
            },
            (Err(x), Err(y)) => x@ == y,
            _ => false,
        },
        r matches Ok((cs2, None)) ==> nodes_view(cs2@) == nodes_view(cs@),
    decreases toks@, 0int, cs, 0int,
{
    let ghost vs = nodes_view(cs@);
    let ghost cs_entry = cs;
    let mut cs = cs;
    let n = cs.len();
    let mut i: usize = 0;
    #[verifier::loop_isolation(false)]
    while i < n
        invariant
            i <= n == cs@.len() == cs_entry@.len(),
            nodes_view(cs@) == vs,
            forall|j: int| i <= j < n ==> cs@[j] == cs_entry@[j],
            step_first(vs, 0, toks@, e) == step_first(vs, i as int, toks@, e),
        decreases n - i,
    {
        let c = cs.remove(i);
        proof {
            assert(c == cs_entry@[i as int]);
            assert(decreases_to!(cs_entry => cs_entry[i as int]));
            assert(vs[i as int] == c@);
        }
        match c.parse(toks, e) {
            Err(x) => {
                return Err(x);
            },
            Ok((c2, claimed)) => {
                let ghost c2v = c2@;
                cs.insert(i, c2);
                if claimed {
                    proof {
                        assert(nodes_view(cs@) =~= vs.update(i as int, c2v));
                    }
                    return Ok((cs, Some(i)));
                }
                proof {
                    assert(nodes_view(cs@) =~= vs);
                }
            },
        }
        i = i + 1;
    }
    Ok((cs, None))
}

/// Scans the keyword section `toks[pos..]` with grammar `n` and finalizes it.
pub fn parse_section(n: Node, toks: &Vec<Tok>, pos: usize) -> (r: Result<Out, ParseError>)
    requires
        pos <= toks@.len(),
    ensures
        res_view(r) == scan(n@, toks@, pos as int, seq![]),
    decreases toks@, 1int, toks@, toks@.len() - pos,
{
    let ghost target = scan(n@, toks@, pos as int, seq![]);
    let mut node = n;
    let mut p = pos;
    let mut seen: Vec<String> = Vec::new();
    proof {
        assert(names_view(seen@) =~= Seq::<Seq<char>>::empty());
    }
    #[verifier::loop_isolation(false)]
    while p < toks.len()
        invariant
            pos <= p <= toks@.len(),
            scan(node@, toks@, p as int, names_view(seen@)) == target,
        decreases toks@.len() - p,
    {
        let e = match read_entry(toks, p) {
            Some(e) => e,
            None => {
                return Err(ParseError::UnexpectedToken(p));
            },
        };
        let name = entry_name_of(toks, e);
        if contains_name(&seen, &name) {
            return Err(ParseError::DuplicateAttribute(name));
        }
        match node.parse(toks, e) {
            Err(x) => {
                return Err(x);
            },
            Ok((n2, claimed)) => {
                if !claimed {
                    return Err(ParseError::Unrecognized(name));
                }
                let next = next_entry(toks, e);
                let ghost before = names_view(seen@);
                let ghost nv = name@;
                node = n2;
                seen.push(name);
                proof {
                    assert(names_view(seen@) =~= before.push(nv));
                }
                p = next;
            },
        }
    }
    node.finish()
}

} // verus!
