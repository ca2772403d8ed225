use vstd::prelude::*;

use crate::args::optional;
use crate::meta::{
    describe_prefix, entry_at, entry_name, entry_next, entry_wf, finish, ok, scan, step, step_first, step_leaf, Entry, ErrV,
    LeafV, NodeV, OutV, Shape,
};
use crate::token::{content, lemma_next_comma, Tok, ValueKind};

verus! {

broadcast use vstd::seq::axiom_seq_index_decreases;

/// The names of the entries of the keyword section `toks[pos..]`, in order.
pub open spec fn section_names(toks: Seq<Tok>, pos: int) -> Seq<Seq<char>>
    decreases toks.len() - pos,
{
    if pos < 0 || pos >= toks.len() {
        Seq::empty()
    } else {
        match entry_at(toks, pos) {
            None => Seq::empty(),
            Some(e) => if pos < entry_next(toks, e) <= toks.len() {
                seq![entry_name(toks, e)] + section_names(toks, entry_next(toks, e))
            } else {
                seq![entry_name(toks, e)]
            },
        }
    }
}

proof fn lemma_optional_shape(kinds: Seq<ValueKind>, toks: Seq<Tok>, pos: int, k: int)
    requires
        0 <= k <= kinds.len(),
        optional(kinds, toks, pos, k) is Ok,
    ensures
        ({
            let (vs, _, stopped) = optional(kinds, toks, pos, k)->Ok_0;
            &&& vs.len() == k
            &&& forall|i: int| 0 <= i < k && (#[trigger] vs[i]) is None ==> stopped && forall|j: int|
                i <= j < k ==> (#[trigger] vs[j]) is None
        }),
    decreases k,
{
    if k > 0 {
        lemma_optional_shape(kinds, toks, pos, k - 1);
    }
}

/// Optional values stop at the first that does not match: once slot `i` is empty, every
/// later slot is empty too, whatever the input holds after that point.
pub proof fn lemma_optional_prefix_stop(kinds: Seq<ValueKind>, toks: Seq<Tok>, pos: int, i: int)
    requires
        optional(kinds, toks, pos, kinds.len() as int) is Ok,
        0 <= i < kinds.len(),
        optional(kinds, toks, pos, kinds.len() as int)->Ok_0.0[i] is None,
    ensures
        forall|j: int|
            i <= j < kinds.len() ==> (#[trigger] optional(kinds, toks, pos, kinds.len() as int)->Ok_0.0[j]) is None,
{
    lemma_optional_shape(kinds, toks, pos, kinds.len() as int);
}

/// A keyword section parses only if no name in it is given twice: a scan that succeeds
/// has met every name once.
pub proof fn lemma_scan_names_unique(n: NodeV, toks: Seq<Tok>, pos: int, seen: Seq<Seq<char>>)
    requires
        seen.no_duplicates(),
        scan(n, toks, pos, seen) is Ok,
    ensures
        (seen + section_names(toks, pos)).no_duplicates(),
    decreases toks.len() - pos,
{
    if pos < 0 || pos >= toks.len() {
        assert(seen + section_names(toks, pos) =~= seen);
    } else {
        let e = entry_at(toks, pos)->Some_0;
        let name = entry_name(toks, e);
        let n2 = step(n, toks, e)->Ok_0.0;
        let next = entry_next(toks, e);
        assert(seen.push(name).no_duplicates()) by {
            assert forall|a: int, b: int| 0 <= a < b < seen.len() + 1 implies seen.push(name)[a] != seen.push(name)[b] by {
                if b == seen.len() {
                    assert(seen.contains(seen[a]));
                }
            }
        }
        lemma_scan_names_unique(n2, toks, next, seen.push(name));
        assert(seen + section_names(toks, pos) =~= seen.push(name) + section_names(toks, next));
    }
}

/// An entry whose name was already given fails with that name as a duplicate, whatever
/// its form and whatever the grammar.
pub proof fn lemma_scan_duplicate(n: NodeV, toks: Seq<Tok>, pos: int, seen: Seq<Seq<char>>)
    requires
        0 <= pos < toks.len(),
        entry_at(toks, pos) is Some,
        seen.contains(entry_name(toks, entry_at(toks, pos)->Some_0)),
    ensures
        scan(n, toks, pos, seen) == Err::<OutV, ErrV>(
            ErrV::DuplicateAttribute(entry_name(toks, entry_at(toks, pos)->Some_0)),
        ),
{
}

/// Once a conflict group has selected an alternative, any entry that another of its
/// alternatives claims is a conflict between the new name and the selected one.
pub proof fn lemma_conflict_second_selection(
    alts: Seq<NodeV>,
    selected: (Seq<char>, int),
    toks: Seq<Tok>,
    e: Entry,
)
    requires
        step_first(alts, 0, toks, e) matches Ok((_, k)) && k >= 0,
    ensures
        step(NodeV::Conflicts(alts, Some(selected)), toks, e) == Err::<(NodeV, bool), ErrV>(
            ErrV::ConflictingAttribute(entry_name(toks, e), selected.0),
        ),
{
}

/// A conflict group that selected no alternative fails to finish, naming every alternative.
pub proof fn lemma_conflict_none_selected(alts: Seq<NodeV>)
    ensures
        finish(NodeV::Conflicts(alts, None)) == Err::<OutV, ErrV>(
            ErrV::MissingOneOf(describe_prefix(alts, alts.len() as int)),
        ),
{
}

/// A conflict group that selected one alternative finishes to that alternative's output.
pub proof fn lemma_conflict_one_selected(alts: Seq<NodeV>, name: Seq<char>, k: int, toks: Seq<Tok>, e: Entry)
    requires
        step_first(alts, 0, toks, e) matches Ok((_, j)) && j == k && k >= 0,
    ensures
        step(NodeV::Conflicts(alts, None), toks, e) matches Ok((c, true)) && c == NodeV::Conflicts(
            step_first(alts, 0, toks, e)->Ok_0.0,
            Some((entry_name(toks, e), k)),
        ),
        k < alts.len() ==> finish(NodeV::Conflicts(step_first(alts, 0, toks, e)->Ok_0.0, Some((name, k))))
            == finish(step_first(alts, 0, toks, e)->Ok_0.0[k]),
{
    lemma_step_first_len(alts, 0, toks, e);
}

proof fn lemma_step_first_len(cs: Seq<NodeV>, i: int, toks: Seq<Tok>, e: Entry)
    requires
        step_first(cs, i, toks, e) is Ok,
    ensures
        step_first(cs, i, toks, e)->Ok_0.0.len() == cs.len(),
        step_first(cs, i, toks, e)->Ok_0.1 < cs.len(),
    decreases cs.len() - i,
{
    if 0 <= i < cs.len() {
        if !(step(cs[i], toks, e) matches Ok((_, true))) {
            lemma_step_first_len(cs, i + 1, toks, e);
        }
    }
}

/// An optional nested list that never appears finishes to `None`, without error.
pub proof fn lemma_nested_optional_absent(name: Seq<char>, inner: NodeV)
    ensures
        finish(NodeV::Optional(Box::new(NodeV::Named(name, LeafV::List(Box::new(inner))))))
            == Ok::<OutV, ErrV>(OutV::Opt(None)),
{
}

/// Position of the group of a `name(...)` entry.
pub open spec fn group_of(e: Entry) -> int {
    match e.shape {
        Shape::List { group } => group as int,
        _ => -1,
    }
}

/// An optional nested list given empty, `name()`, finishes to `Some` of its inner
/// grammar's output over no entries, when that grammar can finish with nothing given.
pub proof fn lemma_nested_optional_empty(name: Seq<char>, inner: NodeV, toks: Seq<Tok>, e: Entry)
    requires
        entry_name(toks, e) == name,
        e.shape is List,
        0 <= group_of(e) < toks.len(),
        toks[group_of(e)] is Group,
        content(toks[group_of(e)]).len() == 0,
        finish(inner) is Ok,
    ensures
        ({
            let n = NodeV::Optional(Box::new(NodeV::Named(name, LeafV::List(Box::new(inner)))));
            step(n, toks, e) matches Ok((n2, true)) && finish(n2) == Ok::<OutV, ErrV>(
                OutV::Opt(Some(Box::new(finish(inner)->Ok_0))),
            )
        }),
{
    let o = finish(inner)->Ok_0;
    assert(scan(inner, content(toks[group_of(e)]), 0, seq![]) == finish(inner));
    let leaf = LeafV::List(Box::new(inner));
    assert(step_leaf(leaf, toks, e) == Ok::<(LeafV, bool), ErrV>((LeafV::ListDone(o), true)));
    let named = NodeV::Named(name, leaf);
    let n2 = NodeV::Named(name, LeafV::ListDone(o));
    assert(step(named, toks, e) == Ok::<(NodeV, bool), ErrV>((n2, true)));
    assert(ok(n2));
    assert(finish(n2) == Ok::<OutV, ErrV>(o));
}

/// Two entries with the same text: the same name, the same form, and the same value
/// tokens or group contents, wherever each stands in its own section.
pub open spec fn same_entry(t1: Seq<Tok>, e1: Entry, t2: Seq<Tok>, e2: Entry) -> bool {
    &&& entry_name(t1, e1) == entry_name(t2, e2)
    &&& match (e1.shape, e2.shape) {
        (Shape::Bare, Shape::Bare) => true,
        (Shape::Other, Shape::Other) => true,
        (Shape::Assign { start: s1, end: f1 }, Shape::Assign { start: s2, end: f2 }) => t1.subrange(
            s1 as int,
            f1 as int,
        ) == t2.subrange(s2 as int, f2 as int),
        (Shape::List { group: g1 }, Shape::List { group: g2 }) => t1[g1 as int] == t2[g2 as int],
        _ => false,
    }
}

proof fn lemma_entry_bounds(t: Seq<Tok>, e: Entry)
    requires
        t.len() <= usize::MAX,
        entry_wf(t, e),
    ensures
        e.shape matches Shape::Assign { start, end } ==> start <= end <= t.len(),
        e.shape matches Shape::List { group } ==> group < t.len(),
{
    if e.shape is Assign {
        lemma_next_comma(t, e.at + 2);
    }
}

/// Offering a grammar an entry depends on the entry's text alone: an entry that was
/// claimed is claimed the same way, with the same new state, when the same text is fed
/// back in another section. In particular a conflict group selects the same alternative.
pub proof fn lemma_step_same_entry(n: NodeV, t1: Seq<Tok>, e1: Entry, t2: Seq<Tok>, e2: Entry)
    requires
        t1.len() <= usize::MAX,
        t2.len() <= usize::MAX,
        entry_wf(t1, e1),
        entry_wf(t2, e2),
        same_entry(t1, e1, t2, e2),
        step(n, t1, e1) is Ok,
    ensures
        step(n, t2, e2) == step(n, t1, e1),
    decreases n, 0int,
{
    lemma_entry_bounds(t1, e1);
    lemma_entry_bounds(t2, e2);
    match n {
        NodeV::Named(name, leaf) => {
            if name == entry_name(t1, e1) {
                if let (Shape::Assign { start: s1, end: f1 }, Shape::Assign { start: s2, end: f2 }) = (e1.shape, e2.shape) {
                    assert(t1.subrange(s1 as int, f1 as int).len() == t2.subrange(s2 as int, f2 as int).len());
                    if f1 == s1 + 1 {
                        assert(t1.subrange(s1 as int, f1 as int)[0] == t2.subrange(s2 as int, f2 as int)[0]);
                    }
                }
                assert(step_leaf(leaf, t2, e2) == step_leaf(leaf, t1, e1));
            }
        },
        NodeV::Tuple(cs) => {
            lemma_step_first_same_entry(cs, 0, t1, e1, t2, e2);
        },
        NodeV::Conflicts(alts, _) => {
            lemma_step_first_same_entry(alts, 0, t1, e1, t2, e2);
        },
        NodeV::Optional(b) => {
            lemma_step_same_entry(*b, t1, e1, t2, e2);
        },
        NodeV::Value(b, _) => {
            lemma_step_same_entry(*b, t1, e1, t2, e2);
        },
    }
}

proof fn lemma_step_first_same_entry(cs: Seq<NodeV>, i: int, t1: Seq<Tok>, e1: Entry, t2: Seq<Tok>, e2: Entry)
    requires
        t1.len() <= usize::MAX,
        t2.len() <= usize::MAX,
        entry_wf(t1, e1),
        entry_wf(t2, e2),
        same_entry(t1, e1, t2, e2),
        step_first(cs, i, t1, e1) is Ok,
    ensures
        step_first(cs, i, t2, e2) == step_first(cs, i, t1, e1),
    decreases cs, cs.len() - i,
{
    if 0 <= i < cs.len() {
        lemma_step_same_entry(cs[i], t1, e1, t2, e2);
        if !(step(cs[i], t1, e1) matches Ok((_, true))) {
            lemma_step_first_same_entry(cs, i + 1, t1, e1, t2, e2);
        }
    }
}

} // verus!
