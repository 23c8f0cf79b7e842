use vstd::prelude::*;
use crate::identity::NodeIdentity;
use crate::merge::{Action, Options};
use crate::model::{
    actual, agree_at, child_at, distinct_names, dry, in_reach, lemma_agree_everywhere, lemma_dry_run, lemma_frame,
    lemma_idempotent, lemma_round_trip, linking, merge_forest, no_keep, no_mutation, node_meta, read, same_changes,
    same_report, step_at, unlinking, visit, well_formed, Dest, Position, Tree,
};
use crate::paths::join_spec;
use crate::redirect::{WellKnown, WellKnownDirs, home_relative, key_of, lookup, resolve_spec, well_known_of};

verus! {

/// Linking twice changes nothing the second time: a merge in link mode that
/// succeeded, run again on the destination it left, succeeds, leaves that
/// destination as it is, and changes nothing on the way.
pub proof fn law_idempotent(cs: Seq<(Seq<u8>, Tree)>, fs: Dest, p: Position, opts: Options)
    requires
        !opts.unlink,
        !opts.dry_run,
        distinct_names(cs),
        well_formed(cs, 0),
        merge_forest(cs, 0, fs, p, opts).ok,
    ensures
        ({
            let first = merge_forest(cs, 0, fs, p, opts);
            let second = merge_forest(cs, 0, first.fs, p, opts);
            &&& second.fs == first.fs
            &&& second.ok
            &&& no_mutation(second.trace)
        }),
{
    lemma_idempotent(cs, 0, fs, merge_forest(cs, 0, fs, p, opts).fs, p, opts);
}

/// Linking and then unlinking restores the destination: where a merge in link
/// mode succeeded without finding any link to its source already in place,
/// the merge in unlink mode on what it left succeeds, changes exactly the
/// positions the first one changed, and leaves the destination as it was
/// before the first.
pub proof fn law_round_trip(cs: Seq<(Seq<u8>, Tree)>, fs: Dest, p: Position, opts: Options)
    requires
        !opts.dry_run,
        distinct_names(cs),
        well_formed(cs, 0),
        merge_forest(cs, 0, fs, p, linking(opts)).ok,
        no_keep(merge_forest(cs, 0, fs, p, linking(opts)).trace),
    ensures
        ({
            let first = merge_forest(cs, 0, fs, p, linking(opts));
            let back = merge_forest(cs, 0, first.fs, p, unlinking(opts));
            &&& back.fs == fs
            &&& back.ok
            &&& same_changes(first.trace, back.trace)
        }),
{
    let first = merge_forest(cs, 0, fs, p, linking(opts));
    lemma_round_trip(cs, 0, fs, first.fs, p, opts);
    let back = merge_forest(cs, 0, first.fs, p, unlinking(opts));
    lemma_frame(cs, 0, fs, p, linking(opts));
    lemma_frame(cs, 0, first.fs, p, unlinking(opts));
    assert forall|k: Position| agree_at(back.fs, fs, k) by {
        if !in_reach(cs, 0, p, k) {
            assert(agree_at(back.fs, first.fs, k));
            assert(agree_at(first.fs, fs, k));
        }
    }
    lemma_agree_everywhere(back.fs, fs);
}

/// A dry run takes the same steps as the run carried out, reports them the
/// same way and ends the same way, but changes nothing.
pub proof fn law_dry_run(cs: Seq<(Seq<u8>, Tree)>, fs: Dest, p: Position, opts: Options)
    requires
        distinct_names(cs),
        well_formed(cs, 0),
    ensures
        ({
            let d = merge_forest(cs, 0, fs, p, dry(opts));
            let a = merge_forest(cs, 0, fs, p, actual(opts));
            &&& d.fs == fs
            &&& d.ok == a.ok
            &&& same_report(d.trace, a.trace)
            &&& no_mutation(d.trace)
        }),
{
    lemma_dry_run(cs, 0, fs, fs, p, opts);
}

/// A destination that is a regular file and not the source stops the merge
/// with a conflict there, with nothing changed and nothing below it visited.
pub proof fn law_conflict(cs: Seq<(Seq<u8>, Tree)>, fs: Dest, p: Position, opts: Options)
    requires
        cs.len() > 0,
        fs.contains_key(p.push(cs[0].0)),
        fs[p.push(cs[0].0)].is_file,
        fs[p.push(cs[0].0)].identity != node_meta(cs[0].1).identity,
    ensures
        ({
            let r = merge_forest(cs, 0, fs, p, opts);
            &&& !r.ok
            &&& r.fs == fs
            &&& r.trace.len() == 1
            &&& r.trace[0].0 == p.push(cs[0].0)
            &&& r.trace[0].1.action == Action::Conflict
            &&& !r.trace[0].1.mutates
        }),
{
    let q = child_at(cs, 0, p);
    assert(read(fs, q) == Some(fs[q]));
    assert(step_at(cs, 0, fs, p, opts).action == Action::Conflict);
    assert(!visit(cs, 0, fs, p, opts).ok);
}

/// Merging a source directory holding a file `y` into an existing directory
/// that holds an unrelated entry `x` links `y` into it and leaves everything
/// else, `x` included, as it was.
pub proof fn law_merge_into_directory(
    name: Seq<u8>,
    source: NodeIdentity,
    y: Seq<u8>,
    y_source: NodeIdentity,
    x: Seq<u8>,
    fs: Dest,
    p: Position,
    opts: Options,
)
    requires
        !opts.unlink,
        !opts.dry_run,
        x != y,
        fs.contains_key(p.push(name)),
        !fs[p.push(name)].is_file,
        fs[p.push(name)].identity != source,
        !fs.contains_key(p.push(name).push(y)),
    ensures
        ({
            let cs = seq![(name, Tree::Dir(source, seq![(y, Tree::File(y_source))]))];
            let r = merge_forest(cs, 0, fs, p, opts);
            &&& r.ok
            &&& r.fs == fs.insert(p.push(name).push(y), node_meta(Tree::File(y_source)))
            &&& read(r.fs, p.push(name).push(x)) == read(fs, p.push(name).push(x))
        }),
{
    let q = p.push(name);
    let ch = seq![(y, Tree::File(y_source))];
    let cs = seq![(name, Tree::Dir(source, ch))];
    assert(child_at(cs, 0, p) == q);
    assert(child_at(ch, 0, q) == q.push(y));
    assert(read(fs, q) == Some(fs[q]));
    assert(step_at(cs, 0, fs, p, opts).action == Action::Descend);
    assert(read(fs, q.push(y)) is None);
    assert(step_at(ch, 0, fs, q, opts).action == Action::CreateLink);
    assert(step_at(ch, 0, fs, q, opts).mutates);
    let inner = merge_forest(ch, 0, fs, q, opts);
    let v = visit(ch, 0, fs, q, opts);
    assert(v.ok);
    assert(merge_forest(ch, 1, v.fs, q, opts).ok && merge_forest(ch, 1, v.fs, q, opts).fs == v.fs);
    assert(inner.ok && inner.fs == v.fs);
    assert(visit(cs, 0, fs, p, opts).fs == inner.fs);
    assert(visit(cs, 0, fs, p, opts).ok);
    assert(merge_forest(cs, 1, inner.fs, p, opts).ok);
    assert(visit(ch, 0, fs, q, opts).fs == fs.insert(q.push(y), node_meta(Tree::File(y_source))));
    assert(merge_forest(ch, 1, inner.fs, q, opts).fs == inner.fs);
    assert(merge_forest(cs, 1, inner.fs, p, opts).fs == inner.fs);
    assert(q.push(x) != q.push(y)) by {
        assert(q.push(x)[q.len() as int] == x);
        assert(q.push(y)[q.len() as int] == y);
    }
}

/// A well-known key with no override resolves to its conventional directory
/// below the home directory; a key that is neither overridden nor well known
/// fails, naming the key.
pub proof fn lemma_redirect_fallback(
    w: WellKnown,
    key: Seq<u8>,
    overrides: Seq<(Vec<u8>, Vec<u8>)>,
    dirs: WellKnownDirs,
    home: Seq<u8>,
)
    requires
        dirs.under_home(home),
        lookup(overrides, key_of(w)) is None,
    ensures
        resolve_spec(key_of(w), overrides, dirs) == Ok::<Seq<u8>, Seq<u8>>(join_spec(home, home_relative(w))),
        lookup(overrides, key) is None && well_known_of(key) is None ==> resolve_spec(key, overrides, dirs) == Err::<Seq<u8>, Seq<u8>>(key),
{
    lemma_well_known_of_key(w);
    assert(dirs.dir(w) == join_spec(home, home_relative(w)));
}

/// Each well-known key names its own directory.
pub proof fn lemma_well_known_of_key(w: WellKnown)
    ensures
        well_known_of(key_of(w)) == Some(w),
{
    let d = key_of(WellKnown::Data);
    let s = key_of(WellKnown::State);
    let ca = key_of(WellKnown::Cache);
    let co = key_of(WellKnown::Config);
    assert(d.len() == 13 && s.len() == 14 && ca.len() == 14 && co.len() == 15);
    assert(s[4] != ca[4]);
    assert(d != s && d != ca && d != co && s != ca && s != co && ca != co);
}

} // verus!
