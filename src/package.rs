use vstd::prelude::*;
use crate::paths::{join, join_spec};
use crate::redirect::{marker_key, resolve_redirect, resolve_spec, strip_at_sign_prefix, RedirectError, WellKnownDirs};

verus! {

/// The directory below the home directory that holds the packages.
pub open spec fn packages_dir_name() -> Seq<u8> {
    seq![0x2e, 0x78, 0x64, 0x6f, 0x74] // ".xdot"
}

/// The directory that holds all packages: `.xdot` below `home`.
pub fn packages_root(home: &[u8]) -> (r: Vec<u8>)
    ensures
        r@ == join_spec(home@, packages_dir_name()),
{
    let name: Vec<u8> = vec![0x2e, 0x78, 0x64, 0x6f, 0x74];
    assert(name@ =~= packages_dir_name());
    join(home, name.as_slice())
}

/// How one top-level entry of a package is merged.
#[derive(Debug)]
pub enum EntryPlan {
    /// The entry itself is merged with `link`.
    Direct { original: Vec<u8>, link: Vec<u8> },
    /// The entry is redirected: its children are merged into `destination`;
    /// the entry itself is never linked.
    Redirect { original: Vec<u8>, destination: Vec<u8> },
}

/// The plan for the entry `name` of the package at `package`: a marked entry
/// goes to the directory its key resolves to, any other one to the same name
/// below `destination_root`. `Err` carries the key that did not resolve.
pub open spec fn plan_spec(
    package: Seq<u8>,
    name: Seq<u8>,
    destination_root: Seq<u8>,
    overrides: Seq<(Vec<u8>, Vec<u8>)>,
    dirs: WellKnownDirs,
) -> Result<(bool, Seq<u8>, Seq<u8>), Seq<u8>> {
    let original = join_spec(package, name);
    match marker_key(name) {
        Some(key) => match resolve_spec(key, overrides, dirs) {
            Ok(d) => Ok((true, original, d)),
            Err(k) => Err(k),
        },
        None => Ok((false, original, join_spec(destination_root, name))),
    }
}

/// Plans the merge of the top-level entry `name` of the package at `package`.
pub fn plan_entry(
    package: &[u8],
    name: &[u8],
    destination_root: &[u8],
    overrides: &Vec<(Vec<u8>, Vec<u8>)>,
    dirs: &WellKnownDirs,
) -> (r: Result<EntryPlan, RedirectError>)
    ensures
        r matches Ok(EntryPlan::Direct { original, link }) ==> plan_spec(package@, name@, destination_root@, overrides@, *dirs)
            == Ok::<(bool, Seq<u8>, Seq<u8>), Seq<u8>>((false, original@, link@)),
        r matches Ok(EntryPlan::Redirect { original, destination }) ==> plan_spec(package@, name@, destination_root@, overrides@, *dirs)
            == Ok::<(bool, Seq<u8>, Seq<u8>), Seq<u8>>((true, original@, destination@)),
        r matches Err(RedirectError::Unresolvable { key }) ==> plan_spec(package@, name@, destination_root@, overrides@, *dirs)
            == Err::<(bool, Seq<u8>, Seq<u8>), Seq<u8>>(key@),
{
    let original = join(package, name);
    match strip_at_sign_prefix(name) {
        Some(key) => match resolve_redirect(key.as_slice(), overrides, dirs) {
            Ok(destination) => Ok(EntryPlan::Redirect { original, destination }),
            Err(e) => Err(e),
        },
        None => Ok(EntryPlan::Direct { original, link: join(destination_root, name) }),
    }
}

} // verus!
