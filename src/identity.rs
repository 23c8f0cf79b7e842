use vstd::prelude::*;

verus! {

/// Identity of a filesystem object: the storage device and the node number.
/// Two paths with equal identities reach the same object.
#[derive(Clone, Copy, Debug, PartialEq, Eq, Structural)]
pub struct NodeIdentity {
    pub dev: u64,
    pub ino: u64,
}

/// What a metadata read (following symbolic links) tells about a path.
#[derive(Clone, Copy, Debug, PartialEq, Eq, Structural)]
pub struct Metadata {
    pub identity: NodeIdentity,
    pub is_file: bool,
}

/// Both reads succeeded and reached the same device and node.
pub open spec fn same_object_spec(a: Option<Metadata>, b: Option<Metadata>) -> bool {
    &&& a is Some
    &&& b is Some
    &&& a->0.identity == b->0.identity
}

/// Decides whether two metadata reads denote the same object. A failed read
/// (`None`: the path does not exist or cannot be read) never matches.
pub fn same_object(a: Option<Metadata>, b: Option<Metadata>) -> (r: bool)
    ensures
        r == same_object_spec(a, b),
{
    match (a, b) {
        (Some(x), Some(y)) => x.identity.dev == y.identity.dev && x.identity.ino == y.identity.ino,
        _ => false,
    }
}

} // verus!
