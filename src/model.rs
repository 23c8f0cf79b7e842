use vstd::prelude::*;
use crate::identity::{Metadata, NodeIdentity};
use crate::merge::{Action, Options, Step, step_spec};

verus! {

/// A position in a tree: the names from its root.
pub type Position = Seq<Seq<u8>>;

/// A source subtree: a file, or a directory with its named children.
pub ghost enum Tree {
    File(NodeIdentity),
    Dir(NodeIdentity, Seq<(Seq<u8>, Tree)>),
}

/// What a metadata read of the destination gives at each position where it
/// succeeds.
pub type Dest = Map<Position, Metadata>;

/// What a metadata read of a source node gives.
pub open spec fn node_meta(t: Tree) -> Metadata {
    match t {
        Tree::File(id) => Metadata { identity: id, is_file: true },
        Tree::Dir(id, _) => Metadata { identity: id, is_file: false },
    }
}

/// The metadata read at `q`.
pub open spec fn read(fs: Dest, q: Position) -> Option<Metadata> {
    if fs.contains_key(q) { Some(fs[q]) } else { None }
}

/// The destination after `step` at `q` for the source read as `m`.
pub open spec fn apply(fs: Dest, q: Position, m: Metadata, step: Step) -> Dest {
    if step.mutates && step.action == Action::CreateLink {
        fs.insert(q, m)
    } else if step.mutates && step.action == Action::RemoveLink {
        fs.remove(q)
    } else {
        fs
    }
}

/// The outcome of a merge: the destination after it, whether it succeeded,
/// and the steps taken, each with its position.
pub ghost struct Run {
    pub fs: Dest,
    pub ok: bool,
    pub trace: Seq<(Position, Step)>,
}

/// The position of the child `cs[i]` in the directory at `p`.
pub open spec fn child_at(cs: Seq<(Seq<u8>, Tree)>, i: int, p: Position) -> Position {
    p.push(cs[i].0)
}

/// The step taken for the child `cs[i]` against `fs`.
pub open spec fn step_at(cs: Seq<(Seq<u8>, Tree)>, i: int, fs: Dest, p: Position, opts: Options) -> Step {
    step_spec(read(fs, child_at(cs, i, p)), Some(node_meta(cs[i].1)), opts)
}

/// The merge of the single child `cs[i]` of a source directory into the
/// destination directory at `p`. A descent whose source is not a directory
/// fails, as listing it would.
pub open spec fn visit(cs: Seq<(Seq<u8>, Tree)>, i: int, fs: Dest, p: Position, opts: Options) -> Run
    decreases cs, cs.len() - i, 0nat,
{
    if i < 0 || i >= cs.len() {
        Run { fs, ok: true, trace: Seq::empty() }
    } else {
        let q = child_at(cs, i, p);
        let step = step_at(cs, i, fs, p, opts);
        if step.action == Action::Conflict {
            Run { fs, ok: false, trace: seq![(q, step)] }
        } else if step.action == Action::Descend {
            match cs[i].1 {
                Tree::File(_) => Run { fs, ok: false, trace: seq![(q, step)] },
                Tree::Dir(_, ch) => {
                    let inner = merge_forest(ch, 0, fs, q, opts);
                    Run { fs: inner.fs, ok: inner.ok, trace: seq![(q, step)] + inner.trace }
                },
            }
        } else {
            Run { fs: apply(fs, q, node_meta(cs[i].1), step), ok: true, trace: seq![(q, step)] }
        }
    }
}

/// The merge of the children `cs[i..]` of a source directory into the
/// destination directory at `p`, one after another, depth first, stopping
/// at the first failure.
///
/// Each step is `step_spec`, which `symlink_or_descend` computes, taken in the
/// order in which a `Merger` hands out its pairs. A plain top-level entry is
/// the one-element forest of that entry at the destination root; a
/// redirected entry is the forest of its children at the directory its key
/// resolves to.
pub open spec fn merge_forest(cs: Seq<(Seq<u8>, Tree)>, i: int, fs: Dest, p: Position, opts: Options) -> Run
    decreases cs, cs.len() - i, 1nat,
{
    if i < 0 || i >= cs.len() {
        Run { fs, ok: true, trace: Seq::empty() }
    } else {
        let first = visit(cs, i, fs, p, opts);
        if first.ok {
            let rest = merge_forest(cs, i + 1, first.fs, p, opts);
            Run { fs: rest.fs, ok: rest.ok, trace: first.trace + rest.trace }
        } else {
            first
        }
    }
}

/// `k` is `q` or lies below it.
pub open spec fn at_or_below(k: Position, q: Position) -> bool {
    k.len() >= q.len() && k.subrange(0, q.len() as int) == q
}

/// `k` is at or below one of the positions of `cs[i..]` in the directory at `p`.
pub open spec fn in_reach(cs: Seq<(Seq<u8>, Tree)>, i: int, p: Position, k: Position) -> bool {
    exists|j: int| i <= j < cs.len() && at_or_below(k, #[trigger] p.push(cs[j].0))
}

/// Two destinations agree at `k`.
pub open spec fn agree_at(a: Dest, b: Dest, k: Position) -> bool {
    read(a, k) == read(b, k)
}

/// Below the position of `cs[i]`, the positions of its children.
pub proof fn lemma_below_child(k: Position, q: Position, c: Position)
    requires
        at_or_below(k, c),
        at_or_below(c, q),
    ensures
        at_or_below(k, q),
{
    assert(k.subrange(0, q.len() as int) =~= c.subrange(0, q.len() as int));
}

/// A position at or below `q` is at or below no sibling of `q`.
pub proof fn lemma_siblings_apart(k: Position, p: Position, a: Seq<u8>, b: Seq<u8>)
    requires
        at_or_below(k, p.push(a)),
        a != b,
    ensures
        !at_or_below(k, p.push(b)),
{
    if at_or_below(k, p.push(b)) {
        assert(k[p.len() as int] == k.subrange(0, p.len() + 1 as int)[p.len() as int]);
        assert(p.push(a)[p.len() as int] == a);
        assert(p.push(b)[p.len() as int] == b);
    }
}

/// Visiting `cs[i]` changes the destination only at or below its position.
pub proof fn lemma_visit_frame(cs: Seq<(Seq<u8>, Tree)>, i: int, fs: Dest, p: Position, opts: Options)
    requires
        0 <= i < cs.len(),
    ensures
        forall|k: Position| !at_or_below(k, child_at(cs, i, p)) ==> agree_at(visit(cs, i, fs, p, opts).fs, fs, k),
    decreases cs, cs.len() - i, 0nat,
{
    let q = child_at(cs, i, p);
    let step = step_at(cs, i, fs, p, opts);
    if step.action == Action::Descend {
        if let Tree::Dir(_, ch) = cs[i].1 {
            lemma_frame(ch, 0, fs, q, opts);
            assert forall|k: Position| !at_or_below(k, q) implies agree_at(visit(cs, i, fs, p, opts).fs, fs, k) by {
                if in_reach(ch, 0, q, k) {
                    let j = choose|j: int| 0 <= j < ch.len() && at_or_below(k, #[trigger] q.push(ch[j].0));
                    assert(q.push(ch[j].0).subrange(0, q.len() as int) =~= q);
                    lemma_below_child(k, q, q.push(ch[j].0));
                }
            }
        }
    } else {
        assert forall|k: Position| !at_or_below(k, q) implies agree_at(visit(cs, i, fs, p, opts).fs, fs, k) by {
            if k == q {
                assert(k.subrange(0, q.len() as int) =~= q);
            }
        }
    }
}

/// A merge changes the destination only at or below the positions it visits.
pub proof fn lemma_frame(cs: Seq<(Seq<u8>, Tree)>, i: int, fs: Dest, p: Position, opts: Options)
    requires
        0 <= i,
    ensures
        forall|k: Position| !in_reach(cs, i, p, k) ==> agree_at(merge_forest(cs, i, fs, p, opts).fs, fs, k),
    decreases cs, cs.len() - i, 1nat,
{
    if i < cs.len() {
        let first = visit(cs, i, fs, p, opts);
        lemma_visit_frame(cs, i, fs, p, opts);
        lemma_frame(cs, i + 1, first.fs, p, opts);
        assert forall|k: Position| !in_reach(cs, i, p, k) implies agree_at(merge_forest(cs, i, fs, p, opts).fs, fs, k) by {
            assert(!at_or_below(k, p.push(cs[i].0)));
            assert(!at_or_below(k, child_at(cs, i, p)));
            assert(agree_at(first.fs, fs, k));
            assert forall|j: int| i + 1 <= j < cs.len() implies !at_or_below(k, #[trigger] p.push(cs[j].0)) by {}
            assert(!in_reach(cs, i + 1, p, k));
        }
    }
}

/// Different children of one directory have different names.
pub open spec fn distinct_names(cs: Seq<(Seq<u8>, Tree)>) -> bool {
    forall|a: int, b: int| 0 <= a < b < cs.len() ==> cs[a].0 != cs[b].0
}

/// Every directory among `cs[i..]` and below has children with distinct
/// names, as a filesystem's directories do.
pub open spec fn well_formed(cs: Seq<(Seq<u8>, Tree)>, i: int) -> bool
    decreases cs, cs.len() - i,
{
    if i < 0 || i >= cs.len() {
        true
    } else {
        &&& match cs[i].1 {
            Tree::File(_) => true,
            Tree::Dir(_, ch) => distinct_names(ch) && well_formed(ch, 0),
        }
        &&& well_formed(cs, i + 1)
    }
}

/// No step of the trace changes the filesystem.
pub open spec fn no_mutation(trace: Seq<(Position, Step)>) -> bool {
    forall|j: int| 0 <= j < trace.len() ==> !(#[trigger] trace[j]).1.mutates
}

/// Destinations that agree at every position are equal.
pub proof fn lemma_agree_everywhere(a: Dest, b: Dest)
    requires
        forall|k: Position| agree_at(a, b, k),
    ensures
        a == b,
{
    assert forall|k: Position| a.contains_key(k) == b.contains_key(k) by {
        assert(agree_at(a, b, k));
    }
    assert forall|k: Position| a.contains_key(k) implies a[k] == b[k] by {
        assert(agree_at(a, b, k));
    }
    assert(a =~= b);
}

/// A position below a child of `q` is below `q`; `q` itself is below none.
pub proof fn lemma_reach_below(ch: Seq<(Seq<u8>, Tree)>, q: Position, k: Position)
    ensures
        in_reach(ch, 0, q, k) ==> at_or_below(k, q) && k != q,
{
    if in_reach(ch, 0, q, k) {
        let j = choose|j: int| 0 <= j < ch.len() && at_or_below(k, #[trigger] q.push(ch[j].0));
        assert(q.push(ch[j].0).subrange(0, q.len() as int) =~= q);
        lemma_below_child(k, q, q.push(ch[j].0));
    }
}

/// With distinct names, what lies at or below the position of `cs[i]` is out
/// of reach of the later children.
pub proof fn lemma_later_apart(cs: Seq<(Seq<u8>, Tree)>, i: int, p: Position, k: Position)
    requires
        0 <= i < cs.len(),
        distinct_names(cs),
        at_or_below(k, child_at(cs, i, p)),
    ensures
        !in_reach(cs, i + 1, p, k),
{
    assert forall|j: int| i + 1 <= j < cs.len() implies !at_or_below(k, #[trigger] p.push(cs[j].0)) by {
        lemma_siblings_apart(k, p, cs[i].0, cs[j].0);
    }
}

/// One visit, taken again on a destination that agrees at and below its
/// position with what the first visit left, changes nothing.
pub proof fn lemma_visit_idempotent(cs: Seq<(Seq<u8>, Tree)>, i: int, fs: Dest, gs: Dest, p: Position, opts: Options)
    requires
        0 <= i < cs.len(),
        !opts.unlink,
        !opts.dry_run,
        well_formed(cs, i),
        visit(cs, i, fs, p, opts).ok,
        forall|k: Position| at_or_below(k, child_at(cs, i, p)) ==> agree_at(gs, visit(cs, i, fs, p, opts).fs, k),
    ensures
        visit(cs, i, gs, p, opts).fs == gs,
        visit(cs, i, gs, p, opts).ok,
        no_mutation(visit(cs, i, gs, p, opts).trace),
    decreases cs, cs.len() - i, 0nat,
{
    let q = child_at(cs, i, p);
    assert(q.subrange(0, q.len() as int) =~= q);
    assert(at_or_below(q, child_at(cs, i, p)));
    assert(agree_at(gs, visit(cs, i, fs, p, opts).fs, q));
    let step = step_at(cs, i, fs, p, opts);
    if step.action == Action::Descend {
        if let Tree::Dir(_, ch) = cs[i].1 {
            lemma_frame(ch, 0, fs, q, opts);
            lemma_reach_below(ch, q, q);
            assert forall|k: Position| in_reach(ch, 0, q, k) implies agree_at(gs, merge_forest(ch, 0, fs, q, opts).fs, k) by {
                lemma_reach_below(ch, q, k);
            }
            lemma_idempotent(ch, 0, fs, gs, q, opts);
            let second = visit(cs, i, gs, p, opts);
            assert(second.trace == seq![(q, step_at(cs, i, gs, p, opts))] + merge_forest(ch, 0, gs, q, opts).trace);
            assert forall|j: int| 0 <= j < second.trace.len() implies !(#[trigger] second.trace[j]).1.mutates by {
                if j > 0 {
                    assert(second.trace[j] == merge_forest(ch, 0, gs, q, opts).trace[j - 1]);
                }
            }
        }
    }
}

/// A merge taken again on a destination that agrees, wherever the merge
/// reaches, with what the first merge left, changes nothing.
pub proof fn lemma_idempotent(cs: Seq<(Seq<u8>, Tree)>, i: int, fs: Dest, gs: Dest, p: Position, opts: Options)
    requires
        0 <= i,
        !opts.unlink,
        !opts.dry_run,
        distinct_names(cs),
        well_formed(cs, i),
        merge_forest(cs, i, fs, p, opts).ok,
        forall|k: Position| in_reach(cs, i, p, k) ==> agree_at(gs, merge_forest(cs, i, fs, p, opts).fs, k),
    ensures
        merge_forest(cs, i, gs, p, opts).fs == gs,
        merge_forest(cs, i, gs, p, opts).ok,
        no_mutation(merge_forest(cs, i, gs, p, opts).trace),
    decreases cs, cs.len() - i, 1nat,
{
    if i < cs.len() {
        let q = child_at(cs, i, p);
        let first = visit(cs, i, fs, p, opts);
        let r = merge_forest(cs, i + 1, first.fs, p, opts);
        lemma_frame(cs, i + 1, first.fs, p, opts);
        assert forall|k: Position| at_or_below(k, q) implies agree_at(gs, first.fs, k) by {
            lemma_later_apart(cs, i, p, k);
            assert(in_reach(cs, i, p, k));
        }
        lemma_visit_idempotent(cs, i, fs, gs, p, opts);
        assert forall|k: Position| in_reach(cs, i + 1, p, k) implies agree_at(gs, r.fs, k) by {
            let j = choose|j: int| i + 1 <= j < cs.len() && at_or_below(k, #[trigger] p.push(cs[j].0));
            assert(in_reach(cs, i, p, k));
        }
        lemma_idempotent(cs, i + 1, first.fs, gs, p, opts);
        let second = visit(cs, i, gs, p, opts);
        let rest = merge_forest(cs, i + 1, gs, p, opts);
        let all = second.trace + rest.trace;
        assert forall|j: int| 0 <= j < all.len() implies !(#[trigger] all[j]).1.mutates by {
            if j < second.trace.len() {
                assert(all[j] == second.trace[j]);
            } else {
                assert(all[j] == rest.trace[j - second.trace.len()]);
            }
        }
    }
}

/// No step of the trace found a link to its source already in place.
pub open spec fn no_keep(trace: Seq<(Position, Step)>) -> bool {
    forall|j: int| 0 <= j < trace.len() ==> (#[trigger] trace[j]).1.action != Action::KeepLink
}

/// Two traces visit the same positions and change the filesystem at the
/// same ones.
pub open spec fn same_changes(a: Seq<(Position, Step)>, b: Seq<(Position, Step)>) -> bool {
    &&& a.len() == b.len()
    &&& forall|j: int| 0 <= j < a.len() ==> (#[trigger] a[j]).0 == b[j].0 && a[j].1.mutates == b[j].1.mutates
}

/// Two traces visit the same positions with the same actions, reported the
/// same way.
pub open spec fn same_report(a: Seq<(Position, Step)>, b: Seq<(Position, Step)>) -> bool {
    &&& a.len() == b.len()
    &&& forall|j: int| 0 <= j < a.len() ==> (#[trigger] a[j]).0 == b[j].0 && a[j].1.action == b[j].1.action
        && a[j].1.reported == b[j].1.reported
}

/// The parts of a trace keep what holds of the whole.
pub proof fn lemma_trace_parts(a: Seq<(Position, Step)>, b: Seq<(Position, Step)>)
    ensures
        no_keep(a + b) ==> no_keep(a) && no_keep(b),
{
    if no_keep(a + b) {
        assert forall|j: int| 0 <= j < a.len() implies (#[trigger] a[j]).1.action != Action::KeepLink by {
            assert((a + b)[j] == a[j]);
        }
        assert forall|j: int| 0 <= j < b.len() implies (#[trigger] b[j]).1.action != Action::KeepLink by {
            assert((a + b)[a.len() + j] == b[j]);
        }
    }
}

/// Joining traces keeps what holds of their parts.
pub proof fn lemma_trace_join(a1: Seq<(Position, Step)>, a2: Seq<(Position, Step)>, b1: Seq<(Position, Step)>, b2: Seq<(Position, Step)>)
    ensures
        same_changes(a1, b1) && same_changes(a2, b2) ==> same_changes(a1 + a2, b1 + b2),
        same_report(a1, b1) && same_report(a2, b2) ==> same_report(a1 + a2, b1 + b2),
        no_mutation(a1) && no_mutation(a2) ==> no_mutation(a1 + a2),
{
    if same_changes(a1, b1) && same_changes(a2, b2) {
        assert forall|j: int| 0 <= j < (a1 + a2).len() implies (#[trigger] (a1 + a2)[j]).0 == (b1 + b2)[j].0
            && (a1 + a2)[j].1.mutates == (b1 + b2)[j].1.mutates by {
            if j < a1.len() {
                assert((a1 + a2)[j] == a1[j] && (b1 + b2)[j] == b1[j]);
            } else {
                assert((a1 + a2)[j] == a2[j - a1.len()] && (b1 + b2)[j] == b2[j - a1.len()]);
            }
        }
    }
    if same_report(a1, b1) && same_report(a2, b2) {
        assert forall|j: int| 0 <= j < (a1 + a2).len() implies (#[trigger] (a1 + a2)[j]).0 == (b1 + b2)[j].0
            && (a1 + a2)[j].1.action == (b1 + b2)[j].1.action && (a1 + a2)[j].1.reported == (b1 + b2)[j].1.reported by {
            if j < a1.len() {
                assert((a1 + a2)[j] == a1[j] && (b1 + b2)[j] == b1[j]);
            } else {
                assert((a1 + a2)[j] == a2[j - a1.len()] && (b1 + b2)[j] == b2[j - a1.len()]);
            }
        }
    }
    if no_mutation(a1) && no_mutation(a2) {
        assert forall|j: int| 0 <= j < (a1 + a2).len() implies !(#[trigger] (a1 + a2)[j]).1.mutates by {
            if j < a1.len() {
                assert((a1 + a2)[j] == a1[j]);
            } else {
                assert((a1 + a2)[j] == a2[j - a1.len()]);
            }
        }
    }
}

/// Link mode and unlink mode of the same flags.
pub open spec fn linking(opts: Options) -> Options {
    Options { unlink: false, ..opts }
}

pub open spec fn unlinking(opts: Options) -> Options {
    Options { unlink: true, ..opts }
}

/// One visit in unlink mode, on a destination that agrees at and below its
/// position with what the visit in link mode left, restores what was there
/// before, changing the same positions.
pub proof fn lemma_visit_round_trip(cs: Seq<(Seq<u8>, Tree)>, i: int, fs: Dest, gs: Dest, p: Position, opts: Options)
    requires
        0 <= i < cs.len(),
        !opts.dry_run,
        well_formed(cs, i),
        visit(cs, i, fs, p, linking(opts)).ok,
        no_keep(visit(cs, i, fs, p, linking(opts)).trace),
        forall|k: Position| at_or_below(k, child_at(cs, i, p)) ==> agree_at(gs, visit(cs, i, fs, p, linking(opts)).fs, k),
    ensures
        visit(cs, i, gs, p, unlinking(opts)).ok,
        same_changes(visit(cs, i, fs, p, linking(opts)).trace, visit(cs, i, gs, p, unlinking(opts)).trace),
        forall|k: Position| at_or_below(k, child_at(cs, i, p)) ==> agree_at(visit(cs, i, gs, p, unlinking(opts)).fs, fs, k),
    decreases cs, cs.len() - i, 0nat,
{
    let q = child_at(cs, i, p);
    let first = visit(cs, i, fs, p, linking(opts));
    assert(q.subrange(0, q.len() as int) =~= q);
    assert(at_or_below(q, child_at(cs, i, p)));
    assert(agree_at(gs, first.fs, q));
    assert(first.trace[0] == (q, step_at(cs, i, fs, p, linking(opts))));
    let step = step_at(cs, i, fs, p, linking(opts));
    if step.action == Action::Descend {
        if let Tree::Dir(_, ch) = cs[i].1 {
            let inner = merge_forest(ch, 0, fs, q, linking(opts));
            lemma_frame(ch, 0, fs, q, linking(opts));
            lemma_reach_below(ch, q, q);
            lemma_trace_parts(seq![(q, step)], inner.trace);
            assert forall|k: Position| in_reach(ch, 0, q, k) implies agree_at(gs, inner.fs, k) by {
                lemma_reach_below(ch, q, k);
            }
            lemma_round_trip(ch, 0, fs, gs, q, opts);
            let back = merge_forest(ch, 0, gs, q, unlinking(opts));
            lemma_frame(ch, 0, gs, q, unlinking(opts));
            lemma_trace_join(seq![(q, step)], inner.trace, seq![(q, step_at(cs, i, gs, p, unlinking(opts)))], back.trace);
            assert forall|k: Position| at_or_below(k, q) implies agree_at(visit(cs, i, gs, p, unlinking(opts)).fs, fs, k) by {
                if !in_reach(ch, 0, q, k) {
                    assert(agree_at(back.fs, gs, k));
                    assert(agree_at(gs, inner.fs, k));
                    assert(agree_at(inner.fs, fs, k));
                }
            }
        }
    } else {
        assert forall|k: Position| at_or_below(k, q) implies agree_at(visit(cs, i, gs, p, unlinking(opts)).fs, fs, k) by {}
    }
}

/// A merge in unlink mode, on a destination that agrees wherever the merge
/// reaches with what the merge in link mode left, restores what was there
/// before, changing the same positions.
pub proof fn lemma_round_trip(cs: Seq<(Seq<u8>, Tree)>, i: int, fs: Dest, gs: Dest, p: Position, opts: Options)
    requires
        0 <= i,
        !opts.dry_run,
        distinct_names(cs),
        well_formed(cs, i),
        merge_forest(cs, i, fs, p, linking(opts)).ok,
        no_keep(merge_forest(cs, i, fs, p, linking(opts)).trace),
        forall|k: Position| in_reach(cs, i, p, k) ==> agree_at(gs, merge_forest(cs, i, fs, p, linking(opts)).fs, k),
    ensures
        merge_forest(cs, i, gs, p, unlinking(opts)).ok,
        same_changes(merge_forest(cs, i, fs, p, linking(opts)).trace, merge_forest(cs, i, gs, p, unlinking(opts)).trace),
        forall|k: Position| in_reach(cs, i, p, k) ==> agree_at(merge_forest(cs, i, gs, p, unlinking(opts)).fs, fs, k),
    decreases cs, cs.len() - i, 1nat,
{
    if i < cs.len() {
        let q = child_at(cs, i, p);
        let first = visit(cs, i, fs, p, linking(opts));
        let r = merge_forest(cs, i + 1, first.fs, p, linking(opts));
        lemma_frame(cs, i + 1, first.fs, p, linking(opts));
        lemma_visit_frame(cs, i, fs, p, linking(opts));
        lemma_trace_parts(first.trace, r.trace);
        assert forall|k: Position| at_or_below(k, q) implies agree_at(gs, first.fs, k) by {
            lemma_later_apart(cs, i, p, k);
            assert(in_reach(cs, i, p, k));
        }
        lemma_visit_round_trip(cs, i, fs, gs, p, opts);
        let u1 = visit(cs, i, gs, p, unlinking(opts));
        lemma_visit_frame(cs, i, gs, p, unlinking(opts));
        assert forall|k: Position| in_reach(cs, i + 1, p, k) implies agree_at(u1.fs, r.fs, k) by {
            if at_or_below(k, q) {
                lemma_later_apart(cs, i, p, k);
            }
            let j = choose|j: int| i + 1 <= j < cs.len() && at_or_below(k, #[trigger] p.push(cs[j].0));
            assert(in_reach(cs, i, p, k));
        }
        lemma_round_trip(cs, i + 1, first.fs, u1.fs, p, opts);
        let u = merge_forest(cs, i + 1, u1.fs, p, unlinking(opts));
        lemma_frame(cs, i + 1, u1.fs, p, unlinking(opts));
        lemma_trace_join(first.trace, r.trace, u1.trace, u.trace);
        assert forall|k: Position| in_reach(cs, i, p, k) implies agree_at(merge_forest(cs, i, gs, p, unlinking(opts)).fs, fs, k) by {
            if at_or_below(k, q) {
                lemma_later_apart(cs, i, p, k);
            } else {
                let j = choose|j: int| i <= j < cs.len() && at_or_below(k, #[trigger] p.push(cs[j].0));
                assert(j != i);
                assert(in_reach(cs, i + 1, p, k));
            }
        }
    }
}

/// Dry run and actual run of the same flags.
pub open spec fn dry(opts: Options) -> Options {
    Options { dry_run: true, ..opts }
}

pub open spec fn actual(opts: Options) -> Options {
    Options { dry_run: false, ..opts }
}

/// One visit as a dry run, against the one actually carried out on a
/// destination that agrees at and below its position: the same steps,
/// reported alike, with nothing changed.
pub proof fn lemma_visit_dry_run(cs: Seq<(Seq<u8>, Tree)>, i: int, fs: Dest, gs: Dest, p: Position, opts: Options)
    requires
        0 <= i < cs.len(),
        well_formed(cs, i),
        forall|k: Position| at_or_below(k, child_at(cs, i, p)) ==> agree_at(gs, fs, k),
    ensures
        visit(cs, i, fs, p, dry(opts)).fs == fs,
        visit(cs, i, fs, p, dry(opts)).ok == visit(cs, i, gs, p, actual(opts)).ok,
        same_report(visit(cs, i, fs, p, dry(opts)).trace, visit(cs, i, gs, p, actual(opts)).trace),
        no_mutation(visit(cs, i, fs, p, dry(opts)).trace),
    decreases cs, cs.len() - i, 0nat,
{
    let q = child_at(cs, i, p);
    assert(q.subrange(0, q.len() as int) =~= q);
    assert(at_or_below(q, child_at(cs, i, p)));
    assert(agree_at(gs, fs, q));
    let step = step_at(cs, i, fs, p, dry(opts));
    if step.action == Action::Descend {
        if let Tree::Dir(_, ch) = cs[i].1 {
            assert forall|k: Position| in_reach(ch, 0, q, k) implies agree_at(gs, fs, k) by {
                lemma_reach_below(ch, q, k);
            }
            lemma_dry_run(ch, 0, fs, gs, q, opts);
            let d = merge_forest(ch, 0, fs, q, dry(opts));
            let a = merge_forest(ch, 0, gs, q, actual(opts));
            lemma_trace_join(seq![(q, step)], d.trace, seq![(q, step_at(cs, i, gs, p, actual(opts)))], a.trace);
        }
    }
}

/// A merge as a dry run, against the one actually carried out on a
/// destination that agrees wherever the merge reaches: the same steps,
/// reported alike, with nothing changed.
pub proof fn lemma_dry_run(cs: Seq<(Seq<u8>, Tree)>, i: int, fs: Dest, gs: Dest, p: Position, opts: Options)
    requires
        0 <= i,
        distinct_names(cs),
        well_formed(cs, i),
        forall|k: Position| in_reach(cs, i, p, k) ==> agree_at(gs, fs, k),
    ensures
        merge_forest(cs, i, fs, p, dry(opts)).fs == fs,
        merge_forest(cs, i, fs, p, dry(opts)).ok == merge_forest(cs, i, gs, p, actual(opts)).ok,
        same_report(merge_forest(cs, i, fs, p, dry(opts)).trace, merge_forest(cs, i, gs, p, actual(opts)).trace),
        no_mutation(merge_forest(cs, i, fs, p, dry(opts)).trace),
    decreases cs, cs.len() - i, 1nat,
{
    if i < cs.len() {
        let q = child_at(cs, i, p);
        assert forall|k: Position| at_or_below(k, q) implies agree_at(gs, fs, k) by {
            assert(in_reach(cs, i, p, k));
        }
        lemma_visit_dry_run(cs, i, fs, gs, p, opts);
        let d1 = visit(cs, i, fs, p, dry(opts));
        let a1 = visit(cs, i, gs, p, actual(opts));
        lemma_visit_frame(cs, i, gs, p, actual(opts));
        assert forall|k: Position| in_reach(cs, i + 1, p, k) implies agree_at(a1.fs, fs, k) by {
            if at_or_below(k, q) {
                lemma_later_apart(cs, i, p, k);
            }
            let j = choose|j: int| i + 1 <= j < cs.len() && at_or_below(k, #[trigger] p.push(cs[j].0));
            assert(in_reach(cs, i, p, k));
            assert(!at_or_below(k, child_at(cs, i, p)));
            assert(agree_at(a1.fs, gs, k));
            assert(agree_at(gs, fs, k));
        }
        if d1.ok {
            lemma_dry_run(cs, i + 1, fs, a1.fs, p, opts);
            lemma_trace_join(d1.trace, merge_forest(cs, i + 1, fs, p, dry(opts)).trace,
                a1.trace, merge_forest(cs, i + 1, a1.fs, p, actual(opts)).trace);
        }
    }
}

} // verus!
