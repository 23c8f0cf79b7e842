use std::collections::BTreeMap;

use xdot::identity::{Metadata, NodeIdentity};
use xdot::merge::{descend_and_symlink, symlink_or_descend, Action, Merger, Options, Step};

fn meta(ino: u64, is_file: bool) -> Metadata {
    Metadata { identity: NodeIdentity { dev: 1, ino }, is_file }
}

fn opts(verbosity: u8, unlink: bool, dry_run: bool) -> Options {
    Options { verbosity, unlink, dry_run }
}

#[derive(Clone, Debug, PartialEq)]
enum Node {
    File(u64),
    Dir(u64),
    Link(Vec<u8>),
}

/// A filesystem in memory, keyed by absolute path.
#[derive(Clone, Debug, PartialEq)]
struct Fs {
    nodes: BTreeMap<Vec<u8>, Node>,
}

impl Fs {
    fn new(entries: &[(&str, Node)]) -> Fs {
        let nodes = entries.iter().map(|(p, n)| (p.as_bytes().to_vec(), n.clone())).collect();
        Fs { nodes }
    }

    fn metadata(&self, path: &[u8]) -> Option<Metadata> {
        match self.nodes.get(path)? {
            Node::File(ino) => Some(meta(*ino, true)),
            Node::Dir(ino) => Some(meta(*ino, false)),
            Node::Link(target) => self.metadata(target),
        }
    }

    fn children(&self, dir: &[u8]) -> Vec<Vec<u8>> {
        let mut prefix = dir.to_vec();
        prefix.push(b'/');
        self.nodes
            .keys()
            .filter(|k| k.starts_with(&prefix) && !k[prefix.len()..].contains(&b'/'))
            .map(|k| k[prefix.len()..].to_vec())
            .collect()
    }
}

#[derive(Debug, PartialEq)]
enum Outcome {
    Done,
    Conflict(Vec<u8>),
}

/// Runs a merge on `fs` as the program does; returns the reported lines and
/// the number of mutations.
fn run(fs: &mut Fs, mut merger: Merger, o: &Options) -> (Vec<String>, usize, Outcome) {
    let mut lines = Vec::new();
    let mut mutations = 0;
    while let Some((original, link)) = merger.next() {
        let step = symlink_or_descend(fs.metadata(&link), fs.metadata(&original), o);
        let l = String::from_utf8_lossy(&link).to_string();
        let or = String::from_utf8_lossy(&original).to_string();
        if step.reported {
            lines.push(format!("{:?} {} {}", step.action, l, or));
        }
        match step.action {
            Action::Conflict => return (lines, mutations, Outcome::Conflict(link)),
            Action::Descend => {
                let names = fs.children(&original);
                merger.descend(&original, &link, &names);
            }
            Action::CreateLink if step.mutates => {
                fs.nodes.insert(link.clone(), Node::Link(original.clone()));
                mutations += 1;
            }
            Action::RemoveLink if step.mutates => {
                fs.nodes.remove(&link);
                mutations += 1;
            }
            _ => {}
        }
    }
    (lines, mutations, Outcome::Done)
}

fn package_fs() -> Fs {
    Fs::new(&[
        ("/p", Node::Dir(1)),
        ("/p/etc", Node::Dir(2)),
        ("/p/etc/a.conf", Node::File(3)),
        ("/p/etc/sub", Node::Dir(4)),
        ("/p/etc/sub/b", Node::File(5)),
        ("/etc", Node::Dir(10)),
        ("/etc/x", Node::File(11)),
    ])
}

fn merge_etc() -> Merger {
    Merger::new(b"/p/etc".to_vec(), b"/etc".to_vec())
}

#[test]
fn decide_create_when_destination_missing() {
    let s = symlink_or_descend(None, Some(meta(3, true)), &opts(0, false, false));
    assert_eq!(s, Step { action: Action::CreateLink, mutates: true, reported: true });
}

#[test]
fn decide_keep_existing_link() {
    let s = symlink_or_descend(Some(meta(3, true)), Some(meta(3, true)), &opts(0, false, false));
    assert_eq!(s, Step { action: Action::KeepLink, mutates: false, reported: false });
    let s = symlink_or_descend(Some(meta(3, true)), Some(meta(3, true)), &opts(1, false, false));
    assert_eq!(s, Step { action: Action::KeepLink, mutates: false, reported: true });
}

#[test]
fn decide_remove_in_unlink_mode() {
    let s = symlink_or_descend(Some(meta(3, true)), Some(meta(3, true)), &opts(0, true, false));
    assert_eq!(s, Step { action: Action::RemoveLink, mutates: true, reported: true });
}

#[test]
fn decide_conflict_on_unrelated_file() {
    let s = symlink_or_descend(Some(meta(9, true)), Some(meta(3, true)), &opts(2, false, false));
    assert_eq!(s, Step { action: Action::Conflict, mutates: false, reported: false });
    let s = symlink_or_descend(Some(meta(9, true)), Some(meta(3, true)), &opts(0, true, false));
    assert_eq!(s.action, Action::Conflict);
}

#[test]
fn decide_descend_into_directory() {
    let s = symlink_or_descend(Some(meta(9, false)), Some(meta(3, false)), &opts(0, false, false));
    assert_eq!(s, Step { action: Action::Descend, mutates: false, reported: false });
    let s = symlink_or_descend(Some(meta(9, false)), None, &opts(1, true, false));
    assert_eq!(s, Step { action: Action::Descend, mutates: false, reported: true });
}

#[test]
fn decide_nothing_to_remove() {
    let s = symlink_or_descend(None, Some(meta(3, true)), &opts(0, true, false));
    assert_eq!(s, Step { action: Action::NothingToRemove, mutates: false, reported: false });
    let s = symlink_or_descend(None, Some(meta(3, true)), &opts(1, true, true));
    assert_eq!(s, Step { action: Action::NothingToRemove, mutates: false, reported: true });
}

#[test]
fn decide_dry_run_does_not_mutate() {
    let s = symlink_or_descend(None, Some(meta(3, true)), &opts(0, false, true));
    assert_eq!(s, Step { action: Action::CreateLink, mutates: false, reported: true });
    let s = symlink_or_descend(Some(meta(3, true)), Some(meta(3, true)), &opts(0, true, true));
    assert_eq!(s, Step { action: Action::RemoveLink, mutates: false, reported: true });
}

#[test]
fn child_pairs_in_listed_order() {
    let names = vec![b"b".to_vec(), b"a".to_vec()];
    let pairs = descend_and_symlink(b"/src", b"/dst/", &names);
    assert_eq!(
        pairs,
        vec![
            (b"/src/b".to_vec(), b"/dst/b".to_vec()),
            (b"/src/a".to_vec(), b"/dst/a".to_vec()),
        ]
    );
    assert!(descend_and_symlink(b"/src", b"/dst", &Vec::new()).is_empty());
}

#[test]
fn merger_visits_depth_first_in_order() {
    let mut m = Merger::new(b"/s".to_vec(), b"/d".to_vec());
    assert!(!m.is_done());
    assert_eq!(m.next(), Some((b"/s".to_vec(), b"/d".to_vec())));
    assert!(m.is_done());
    m.descend(b"/s", b"/d", &vec![b"1".to_vec(), b"2".to_vec()]);
    assert_eq!(m.next(), Some((b"/s/1".to_vec(), b"/d/1".to_vec())));
    m.descend(b"/s/1", b"/d/1", &vec![b"x".to_vec()]);
    assert_eq!(m.next(), Some((b"/s/1/x".to_vec(), b"/d/1/x".to_vec())));
    assert_eq!(m.next(), Some((b"/s/2".to_vec(), b"/d/2".to_vec())));
    assert_eq!(m.next(), None);
    assert!(m.is_done());
}

#[test]
fn merger_over_children() {
    let mut m = Merger::children(b"/p/@XDG_CONFIG_HOME", b"/home/u/.config", &vec![b"nvim".to_vec(), b"git".to_vec()]);
    assert_eq!(m.next(), Some((b"/p/@XDG_CONFIG_HOME/nvim".to_vec(), b"/home/u/.config/nvim".to_vec())));
    assert_eq!(m.next(), Some((b"/p/@XDG_CONFIG_HOME/git".to_vec(), b"/home/u/.config/git".to_vec())));
    assert_eq!(m.next(), None);
}

#[test]
fn merge_into_existing_directory_keeps_unrelated_file() {
    let mut fs = package_fs();
    let (_, mutations, outcome) = run(&mut fs, merge_etc(), &opts(0, false, false));
    assert_eq!(outcome, Outcome::Done);
    assert_eq!(mutations, 2);
    assert_eq!(fs.nodes.get(&b"/etc/a.conf".to_vec()), Some(&Node::Link(b"/p/etc/a.conf".to_vec())));
    assert_eq!(fs.nodes.get(&b"/etc/sub".to_vec()), Some(&Node::Link(b"/p/etc/sub".to_vec())));
    assert_eq!(fs.nodes.get(&b"/etc/x".to_vec()), Some(&Node::File(11)));
    assert_eq!(fs.nodes.get(&b"/etc".to_vec()), Some(&Node::Dir(10)));
}

#[test]
fn second_link_run_changes_nothing() {
    let mut fs = package_fs();
    run(&mut fs, merge_etc(), &opts(0, false, false));
    let after_first = fs.clone();
    let (lines, mutations, outcome) = run(&mut fs, merge_etc(), &opts(1, false, false));
    assert_eq!(outcome, Outcome::Done);
    assert_eq!(mutations, 0);
    assert_eq!(fs, after_first);
    assert_eq!(
        lines,
        vec![
            "Descend /etc /p/etc".to_string(),
            "KeepLink /etc/a.conf /p/etc/a.conf".to_string(),
            "KeepLink /etc/sub /p/etc/sub".to_string(),
        ]
    );
}

#[test]
fn link_then_unlink_restores_destination() {
    let mut fs = package_fs();
    let before = fs.clone();
    let (_, created, _) = run(&mut fs, merge_etc(), &opts(0, false, false));
    let (_, removed, outcome) = run(&mut fs, merge_etc(), &opts(0, true, false));
    assert_eq!(outcome, Outcome::Done);
    assert_eq!(created, removed);
    assert_eq!(fs, before);
}

#[test]
fn dry_run_reports_the_same_and_changes_nothing() {
    let mut dry = package_fs();
    let before = dry.clone();
    let (dry_lines, dry_mutations, dry_outcome) = run(&mut dry, merge_etc(), &opts(1, false, true));
    let mut actual = package_fs();
    let (lines, _, outcome) = run(&mut actual, merge_etc(), &opts(1, false, false));
    assert_eq!(dry_lines, lines);
    assert_eq!(dry_outcome, outcome);
    assert_eq!(dry_mutations, 0);
    assert_eq!(dry, before);
}

#[test]
fn conflicting_file_stops_without_change() {
    let mut fs = Fs::new(&[
        ("/p", Node::Dir(1)),
        ("/p/.bashrc", Node::File(2)),
        ("/home/u", Node::Dir(3)),
        ("/home/u/.bashrc", Node::File(4)),
    ]);
    let before = fs.clone();
    let m = Merger::new(b"/p/.bashrc".to_vec(), b"/home/u/.bashrc".to_vec());
    let (_, mutations, outcome) = run(&mut fs, m, &opts(0, false, false));
    assert_eq!(outcome, Outcome::Conflict(b"/home/u/.bashrc".to_vec()));
    assert_eq!(mutations, 0);
    assert_eq!(fs, before);
}

#[test]
fn unlink_with_nothing_linked_changes_nothing() {
    let mut fs = package_fs();
    let before = fs.clone();
    let (lines, mutations, outcome) = run(&mut fs, merge_etc(), &opts(1, true, false));
    assert_eq!(outcome, Outcome::Done);
    assert_eq!(mutations, 0);
    assert_eq!(fs, before);
    assert_eq!(
        lines,
        vec![
            "Descend /etc /p/etc".to_string(),
            "NothingToRemove /etc/a.conf /p/etc/a.conf".to_string(),
            "NothingToRemove /etc/sub /p/etc/sub".to_string(),
        ]
    );
}
