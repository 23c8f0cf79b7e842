use vstd::prelude::*;
use crate::identity::{Metadata, same_object, same_object_spec};
use crate::paths::{join, join_spec};

verus! {

/// The flags of one run: verbosity, unlink mode, dry-run mode.
#[derive(Clone, Copy, Debug, PartialEq, Eq, Structural)]
pub struct Options {
    pub verbosity: u8,
    pub unlink: bool,
    pub dry_run: bool,
}

/// What the merge does for one (source, destination) pair.
#[derive(Clone, Copy, Debug, PartialEq, Eq, Structural)]
pub enum Action {
    /// The destination already reaches the source; unlink mode removes it.
    RemoveLink,
    /// The destination already reaches the source; it is left as it is.
    KeepLink,
    /// The destination is an unrelated regular file: the merge fails here.
    Conflict,
    /// The destination is a directory: the source's children are merged into it.
    Descend,
    /// The destination does not exist: a link to the source is created.
    CreateLink,
    /// The destination does not exist and unlink mode has nothing to remove.
    NothingToRemove,
}

/// An action, whether it changes the filesystem, and whether it is reported
/// on the console.
#[derive(Clone, Copy, Debug, PartialEq, Eq, Structural)]
pub struct Step {
    pub action: Action,
    pub mutates: bool,
    pub reported: bool,
}

/// The action for a destination read as `link` and a source read as `original`.
pub open spec fn action_spec(link: Option<Metadata>, original: Option<Metadata>, opts: Options) -> Action {
    if same_object_spec(link, original) {
        if opts.unlink { Action::RemoveLink } else { Action::KeepLink }
    } else if link is Some {
        if link->0.is_file { Action::Conflict } else { Action::Descend }
    } else {
        if opts.unlink { Action::NothingToRemove } else { Action::CreateLink }
    }
}

/// Only creating and removing a link touch the filesystem, and neither does
/// in a dry run.
pub open spec fn mutates_spec(action: Action, opts: Options) -> bool {
    (action == Action::RemoveLink || action == Action::CreateLink) && !opts.dry_run
}

/// Removals and creations are always reported; skips and descents only at
/// nonzero verbosity; a conflict is reported as the error it returns.
pub open spec fn reported_spec(action: Action, opts: Options) -> bool {
    match action {
        Action::RemoveLink | Action::CreateLink => true,
        Action::Conflict => false,
        _ => opts.verbosity > 0,
    }
}

/// The step taken for one (source, destination) pair.
pub open spec fn step_spec(link: Option<Metadata>, original: Option<Metadata>, opts: Options) -> Step {
    let action = action_spec(link, original, opts);
    Step { action, mutates: mutates_spec(action, opts), reported: reported_spec(action, opts) }
}

/// Decides what to do with the destination `link` for the source `original`,
/// given their metadata reads (`None` where a path does not exist): remove or
/// keep a link that already reaches the source, fail on an unrelated file,
/// descend into a directory, or create the missing link.
pub fn symlink_or_descend(link: Option<Metadata>, original: Option<Metadata>, opts: &Options) -> (r: Step)
    ensures
        r == step_spec(link, original, *opts),
{
    let action = if same_object(link, original) {
        if opts.unlink { Action::RemoveLink } else { Action::KeepLink }
    } else {
        match link {
            Some(m) => if m.is_file { Action::Conflict } else { Action::Descend },
            None => if opts.unlink { Action::NothingToRemove } else { Action::CreateLink },
        }
    };
    let mutates = match action {
        Action::RemoveLink | Action::CreateLink => !opts.dry_run,
        _ => false,
    };
    let reported = match action {
        Action::RemoveLink | Action::CreateLink => true,
        Action::Conflict => false,
        _ => opts.verbosity > 0,
    };
    Step { action, mutates, reported }
}

/// A pair of paths as byte sequences.
pub open spec fn pair_view(p: (Vec<u8>, Vec<u8>)) -> (Seq<u8>, Seq<u8>) {
    (p.0@, p.1@)
}

/// The (source, destination) pair of the child `name` of `original`, whose
/// destination lies in `link`.
pub open spec fn child_pair(original: Seq<u8>, link: Seq<u8>, name: Seq<u8>) -> (Seq<u8>, Seq<u8>) {
    (join_spec(original, name), join_spec(link, name))
}

/// The (source, destination) pairs of the children `names` of `original`,
/// in the order of `names`, each destination being `link` joined with the
/// child's name.
pub fn descend_and_symlink(original: &[u8], link: &[u8], names: &Vec<Vec<u8>>) -> (r: Vec<(Vec<u8>, Vec<u8>)>)
    ensures
        r@.len() == names@.len(),
        forall|i: int| 0 <= i < names@.len() ==> #[trigger] pair_view(r@[i]) == child_pair(original@, link@, names@[i]@),
{
    let mut r: Vec<(Vec<u8>, Vec<u8>)> = Vec::new();
    let mut i: usize = 0;
    while i < names.len()
        invariant
            i <= names@.len(),
            r@.len() == i,
            forall|j: int| 0 <= j < i ==> #[trigger] pair_view(r@[j]) == child_pair(original@, link@, names@[j]@),
        decreases names@.len() - i,
    {
        let o = join(original, names[i].as_slice());
        let l = join(link, names[i].as_slice());
        r.push((o, l));
        i = i + 1;
    }
    r
}

/// The pending (source, destination) pairs of a depth-first merge. The pair
/// handled next is the last one; the children of a directory are handled in
/// the order in which they were listed, before anything pending beside it.
pub struct Merger {
    pending: Vec<(Vec<u8>, Vec<u8>)>,
}

impl Merger {
    /// The pending pairs; the last is handled next.
    pub closed spec fn view(&self) -> Seq<(Seq<u8>, Seq<u8>)> {
        self.pending@.map_values(|p: (Vec<u8>, Vec<u8>)| pair_view(p))
    }

    /// A merge of the single pair (`original`, `link`).
    pub fn new(original: Vec<u8>, link: Vec<u8>) -> (r: Merger)
        ensures
            r.view() == seq![(original@, link@)],
    {
        let mut pending: Vec<(Vec<u8>, Vec<u8>)> = Vec::new();
        pending.push((original, link));
        let r = Merger { pending };
        assert(r.view() =~= seq![(original@, link@)]);
        r
    }

    /// A merge of the children `names` of `original` into the directory `link`.
    pub fn children(original: &[u8], link: &[u8], names: &Vec<Vec<u8>>) -> (r: Merger)
        ensures
            r.view().len() == names@.len(),
            forall|j: int| 0 <= j < names@.len() ==> #[trigger] r.view()[j]
                == child_pair(original@, link@, names@[names@.len() - 1 - j]@),
    {
        let mut r = Merger { pending: Vec::new() };
        assert(r.view() =~= Seq::<(Seq<u8>, Seq<u8>)>::empty());
        r.descend(original, link, names);
        assert forall|j: int| 0 <= j < names@.len() implies #[trigger] r.view()[j]
            == child_pair(original@, link@, names@[names@.len() - 1 - j]@) by {
            assert(r.view()[0 + j] == r.view()[j]);
        }
        r
    }

    /// Whether nothing is pending.
    pub fn is_done(&self) -> (r: bool)
        ensures
            r == (self.view().len() == 0),
    {
        self.pending.len() == 0
    }

    /// Takes the pair to handle next.
    pub fn next(&mut self) -> (r: Option<(Vec<u8>, Vec<u8>)>)
        ensures
            old(self).view().len() == 0 ==> r is None && final(self).view() == old(self).view(),
            old(self).view().len() > 0 ==> (r matches Some(p) && pair_view(p) == old(self).view().last()
                && final(self).view() == old(self).view().drop_last()),
    {
        let r = self.pending.pop();
        proof {
            if old(self).view().len() > 0 {
                assert(self.view() =~= old(self).view().drop_last());
            }
        }
        r
    }

    /// Schedules the children `names` of the source directory `original`,
    /// merged into the destination directory `link`, ahead of everything
    /// pending, the first name first.
    pub fn descend(&mut self, original: &[u8], link: &[u8], names: &Vec<Vec<u8>>)
        ensures
            final(self).view().len() == old(self).view().len() + names@.len(),
            final(self).view().subrange(0, old(self).view().len() as int) == old(self).view(),
            forall|j: int| 0 <= j < names@.len() ==> #[trigger] final(self).view()[old(self).view().len() + j]
                == child_pair(original@, link@, names@[names@.len() - 1 - j]@),
    {
        let pairs = descend_and_symlink(original, link, names);
        let mut pairs = pairs;
        let ghost all = pairs@;
        let ghost start = self.view();
        let n = pairs.len();
        let mut k: usize = n;
        while k > 0
            invariant
                k <= n,
                n == names@.len(),
                all.len() == n,
                pairs@ == all.subrange(0, k as int),
                forall|i: int| 0 <= i < n ==> #[trigger] pair_view(all[i]) == child_pair(original@, link@, names@[i]@),
                self.view().len() == start.len() + (n - k),
                self.view().subrange(0, start.len() as int) == start,
                forall|j: int| 0 <= j < n - k ==> #[trigger] self.view()[start.len() + j]
                    == child_pair(original@, link@, names@[n - 1 - j]@),
            decreases k,
        {
            let p = pairs.pop().unwrap();
            let ghost before = self.view();
            self.pending.push(p);
            assert(self.view() =~= before.push(pair_view(p)));
            assert(pair_view(p) == pair_view(all[k - 1]));
            k = k - 1;
            assert(self.view().subrange(0, start.len() as int) =~= before.subrange(0, start.len() as int));
        }
    }
}

} // verus!
