use vstd::prelude::*;
use crate::paths::{bytes_eq, join, join_spec, suffix_from};

verus! {

/// The byte that marks a top-level package entry as redirected.
pub const AT_SIGN: u8 = 0x40;

/// The key of a redirected entry: its name with the marker removed once, or
/// `None` for an unmarked name.
pub open spec fn marker_key(name: Seq<u8>) -> Option<Seq<u8>> {
    if name.len() > 0 && name[0] == AT_SIGN {
        Some(name.drop_first())
    } else {
        None
    }
}

/// Returns the name with its leading `@` removed exactly once, or `None` when
/// the name does not start with `@` (an empty name included).
pub fn strip_at_sign_prefix(file_name: &[u8]) -> (r: Option<Vec<u8>>)
    ensures
        r matches Some(k) ==> marker_key(file_name@) == Some(k@),
        r is None ==> marker_key(file_name@) is None,
{
    if file_name.len() > 0 && file_name[0] == AT_SIGN {
        let k = suffix_from(file_name, 1);
        assert(k@ =~= file_name@.drop_first());
        Some(k)
    } else {
        None
    }
}

/// The four conventional base directories that a redirect key may name
/// without an override.
#[derive(Clone, Copy, Debug, PartialEq, Eq, Structural)]
pub enum WellKnown {
    Data,
    State,
    Cache,
    Config,
}

/// The key that names each well-known directory.
pub open spec fn key_of(w: WellKnown) -> Seq<u8> {
    match w {
        WellKnown::Data => seq![0x58, 0x44, 0x47, 0x5f, 0x44, 0x41, 0x54, 0x41, 0x5f, 0x48, 0x4f, 0x4d, 0x45], // XDG_DATA_HOME
        WellKnown::State => seq![0x58, 0x44, 0x47, 0x5f, 0x53, 0x54, 0x41, 0x54, 0x45, 0x5f, 0x48, 0x4f, 0x4d, 0x45], // XDG_STATE_HOME
        WellKnown::Cache => seq![0x58, 0x44, 0x47, 0x5f, 0x43, 0x41, 0x43, 0x48, 0x45, 0x5f, 0x48, 0x4f, 0x4d, 0x45], // XDG_CACHE_HOME
        WellKnown::Config => seq![0x58, 0x44, 0x47, 0x5f, 0x43, 0x4f, 0x4e, 0x46, 0x49, 0x47, 0x5f, 0x48, 0x4f, 0x4d, 0x45], // XDG_CONFIG_HOME
    }
}

/// Where each well-known directory lies, relative to the home directory.
pub open spec fn home_relative(w: WellKnown) -> Seq<u8> {
    match w {
        WellKnown::Data => seq![0x2e, 0x6c, 0x6f, 0x63, 0x61, 0x6c, 0x2f, 0x73, 0x68, 0x61, 0x72, 0x65], // .local/share
        WellKnown::State => seq![0x2e, 0x6c, 0x6f, 0x63, 0x61, 0x6c, 0x2f, 0x73, 0x74, 0x61, 0x74, 0x65], // .local/state
        WellKnown::Cache => seq![0x2e, 0x63, 0x61, 0x63, 0x68, 0x65], // .cache
        WellKnown::Config => seq![0x2e, 0x63, 0x6f, 0x6e, 0x66, 0x69, 0x67], // .config
    }
}

/// The well-known directory that a key names, if any.
pub open spec fn well_known_of(key: Seq<u8>) -> Option<WellKnown> {
    if key == key_of(WellKnown::Data) {
        Some(WellKnown::Data)
    } else if key == key_of(WellKnown::State) {
        Some(WellKnown::State)
    } else if key == key_of(WellKnown::Cache) {
        Some(WellKnown::Cache)
    } else if key == key_of(WellKnown::Config) {
        Some(WellKnown::Config)
    } else {
        None
    }
}

impl WellKnown {
    /// The key that names this directory.
    pub fn key(self) -> (r: Vec<u8>)
        ensures
            r@ == key_of(self),
    {
        let r = match self {
            WellKnown::Data => vec![0x58, 0x44, 0x47, 0x5f, 0x44, 0x41, 0x54, 0x41, 0x5f, 0x48, 0x4f, 0x4d, 0x45], // XDG_DATA_HOME
            WellKnown::State => vec![0x58, 0x44, 0x47, 0x5f, 0x53, 0x54, 0x41, 0x54, 0x45, 0x5f, 0x48, 0x4f, 0x4d, 0x45], // XDG_STATE_HOME
            WellKnown::Cache => vec![0x58, 0x44, 0x47, 0x5f, 0x43, 0x41, 0x43, 0x48, 0x45, 0x5f, 0x48, 0x4f, 0x4d, 0x45], // XDG_CACHE_HOME
            WellKnown::Config => vec![0x58, 0x44, 0x47, 0x5f, 0x43, 0x4f, 0x4e, 0x46, 0x49, 0x47, 0x5f, 0x48, 0x4f, 0x4d, 0x45], // XDG_CONFIG_HOME
        };
        assert(r@ =~= key_of(self));
        r
    }

    /// Where this directory lies relative to the home directory.
    pub fn relative_path(self) -> (r: Vec<u8>)
        ensures
            r@ == home_relative(self),
    {
        let r = match self {
            WellKnown::Data => vec![0x2e, 0x6c, 0x6f, 0x63, 0x61, 0x6c, 0x2f, 0x73, 0x68, 0x61, 0x72, 0x65], // .local/share
            WellKnown::State => vec![0x2e, 0x6c, 0x6f, 0x63, 0x61, 0x6c, 0x2f, 0x73, 0x74, 0x61, 0x74, 0x65], // .local/state
            WellKnown::Cache => vec![0x2e, 0x63, 0x61, 0x63, 0x68, 0x65], // .cache
            WellKnown::Config => vec![0x2e, 0x63, 0x6f, 0x6e, 0x66, 0x69, 0x67], // .config
        };
        assert(r@ =~= home_relative(self));
        r
    }
}

/// The well-known directories of one run, computed once from the home
/// directory.
pub struct WellKnownDirs {
    pub data: Vec<u8>,
    pub state: Vec<u8>,
    pub cache: Vec<u8>,
    pub config: Vec<u8>,
}

impl WellKnownDirs {
    /// The directory that stands for `w`.
    pub open spec fn dir(&self, w: WellKnown) -> Seq<u8> {
        match w {
            WellKnown::Data => self.data@,
            WellKnown::State => self.state@,
            WellKnown::Cache => self.cache@,
            WellKnown::Config => self.config@,
        }
    }

    /// Each directory is the home directory joined with its relative path.
    pub open spec fn under_home(&self, home: Seq<u8>) -> bool {
        forall|w: WellKnown| #[trigger] self.dir(w) == join_spec(home, home_relative(w))
    }

    /// The conventional defaults below `home`.
    pub fn from_home(home: &[u8]) -> (r: WellKnownDirs)
        ensures
            r.under_home(home@),
    {
        let data = join(home, WellKnown::Data.relative_path().as_slice());
        let state = join(home, WellKnown::State.relative_path().as_slice());
        let cache = join(home, WellKnown::Cache.relative_path().as_slice());
        let config = join(home, WellKnown::Config.relative_path().as_slice());
        let r = WellKnownDirs { data, state, cache, config };
        assert forall|w: WellKnown| #[trigger] r.dir(w) == join_spec(home@, home_relative(w)) by {
            match w {
                WellKnown::Data => {},
                WellKnown::State => {},
                WellKnown::Cache => {},
                WellKnown::Config => {},
            }
        }
        r
    }
}

/// The value of the first override whose key is `key`.
pub open spec fn lookup(overrides: Seq<(Vec<u8>, Vec<u8>)>, key: Seq<u8>) -> Option<Seq<u8>>
    decreases overrides.len(),
{
    if overrides.len() == 0 {
        None
    } else if overrides[0].0@ == key {
        Some(overrides[0].1@)
    } else {
        lookup(overrides.drop_first(), key)
    }
}

/// Why a redirect key could not be resolved.
#[derive(Debug)]
pub enum RedirectError {
    /// Neither an override nor a well-known directory names this key.
    Unresolvable { key: Vec<u8> },
}

/// Resolution order: an override for the key, else the well-known directory
/// it names, else failure naming the key.
pub open spec fn resolve_spec(key: Seq<u8>, overrides: Seq<(Vec<u8>, Vec<u8>)>, dirs: WellKnownDirs) -> Result<Seq<u8>, Seq<u8>> {
    match lookup(overrides, key) {
        Some(v) => Ok(v),
        None => match well_known_of(key) {
            Some(w) => Ok(dirs.dir(w)),
            None => Err(key),
        },
    }
}

/// Finds the first override whose key is `key`.
pub fn find_override(overrides: &Vec<(Vec<u8>, Vec<u8>)>, key: &[u8]) -> (r: Option<Vec<u8>>)
    ensures
        r matches Some(v) ==> lookup(overrides@, key@) == Some(v@),
        r is None ==> lookup(overrides@, key@) is None,
{
    let mut i: usize = 0;
    assert(overrides@.subrange(0, overrides@.len() as int) =~= overrides@);
    while i < overrides.len()
        invariant
            i <= overrides@.len(),
            lookup(overrides@, key@) == lookup(overrides@.subrange(i as int, overrides@.len() as int), key@),
        decreases overrides@.len() - i,
    {
        let ghost rest = overrides@.subrange(i as int, overrides@.len() as int);
        assert(rest.drop_first() =~= overrides@.subrange(i + 1, overrides@.len() as int));
        if bytes_eq(overrides[i].0.as_slice(), key) {
            let v = suffix_from(overrides[i].1.as_slice(), 0);
            assert(v@ =~= overrides@[i as int].1@);
            return Some(v);
        }
        i = i + 1;
    }
    None
}

/// The well-known directory that `key` names, if any.
pub fn well_known(key: &[u8]) -> (r: Option<WellKnown>)
    ensures
        r == well_known_of(key@),
{
    if bytes_eq(key, WellKnown::Data.key().as_slice()) {
        Some(WellKnown::Data)
    } else if bytes_eq(key, WellKnown::State.key().as_slice()) {
        Some(WellKnown::State)
    } else if bytes_eq(key, WellKnown::Cache.key().as_slice()) {
        Some(WellKnown::Cache)
    } else if bytes_eq(key, WellKnown::Config.key().as_slice()) {
        Some(WellKnown::Config)
    } else {
        None
    }
}

/// Resolves the destination directory of a redirected entry with key `key`.
pub fn resolve_redirect(key: &[u8], overrides: &Vec<(Vec<u8>, Vec<u8>)>, dirs: &WellKnownDirs) -> (r: Result<Vec<u8>, RedirectError>)
    ensures
        r matches Ok(d) ==> resolve_spec(key@, overrides@, *dirs) == Ok::<Seq<u8>, Seq<u8>>(d@),
        r matches Err(RedirectError::Unresolvable { key: k }) ==> resolve_spec(key@, overrides@, *dirs) == Err::<Seq<u8>, Seq<u8>>(k@),
{
    match find_override(overrides, key) {
        Some(v) => Ok(v),
        None => match well_known(key) {
            Some(w) => {
                let d = match w {
                    WellKnown::Data => suffix_from(dirs.data.as_slice(), 0),
                    WellKnown::State => suffix_from(dirs.state.as_slice(), 0),
                    WellKnown::Cache => suffix_from(dirs.cache.as_slice(), 0),
                    WellKnown::Config => suffix_from(dirs.config.as_slice(), 0),
                };
                assert(d@ =~= dirs.dir(w));
                Ok(d)
            },
            None => {
                let k = suffix_from(key, 0);
                assert(k@ =~= key@);
                Err(RedirectError::Unresolvable { key: k })
            },
        },
    }
}

} // verus!
