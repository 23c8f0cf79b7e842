use vstd::prelude::*;
use crate::merge::Options;

verus! {

/// Which packages a run was asked to handle.
#[derive(Debug)]
pub enum PackageSpec {
    /// No package was named yet.
    Unspecified,
    /// Every package below the packages directory.
    All,
    /// The packages named, in order.
    List(Vec<Vec<u8>>),
}

/// The package selection as a mathematical value.
pub ghost enum Selection {
    Unspecified,
    All,
    List(Seq<Seq<u8>>),
}

impl PackageSpec {
    pub open spec fn view(&self) -> Selection {
        match self {
            PackageSpec::Unspecified => Selection::Unspecified,
            PackageSpec::All => Selection::All,
            PackageSpec::List(l) => Selection::List(l@.map_values(|n: Vec<u8>| n@)),
        }
    }
}

/// One command-line argument, as the argument parser classified it.
#[derive(Debug)]
pub enum CliArg {
    DryRun,
    Unlink,
    Verbose,
    Help,
    Version,
    All,
    /// A package name.
    Value(Vec<u8>),
    /// Anything else.
    Unexpected,
}

/// What the caller should do after an argument was taken in.
#[derive(Clone, Copy, Debug, PartialEq, Eq, Structural)]
pub enum ArgOutcome {
    Continue,
    ShowHelp,
    ShowVersion,
}

/// Why an argument was refused.
#[derive(Clone, Copy, Debug, PartialEq, Eq, Structural)]
pub enum ArgError {
    /// A package name came after `--all`.
    PackagesAfterAll,
    /// `--all` came after package names.
    AllAfterPackages,
    /// The argument is not one the program knows.
    Unexpected,
}

/// The parsed command line.
#[derive(Debug)]
pub struct Args {
    pub package_spec: PackageSpec,
    pub options: Options,
}

/// Verbosity raised by one, saturating at the type's maximum.
pub open spec fn raised(v: u8) -> u8 {
    if v < 255 { (v + 1) as u8 } else { 255 }
}

/// The selection and flags after `arg`, with what to do next, or the error.
pub open spec fn apply_spec(sel: Selection, opts: Options, arg: CliArg) -> Result<(Selection, Options, ArgOutcome), ArgError> {
    match arg {
        CliArg::DryRun => Ok((sel, Options { dry_run: true, ..opts }, ArgOutcome::Continue)),
        CliArg::Unlink => Ok((sel, Options { unlink: true, ..opts }, ArgOutcome::Continue)),
        CliArg::Verbose => Ok((sel, Options { verbosity: raised(opts.verbosity), ..opts }, ArgOutcome::Continue)),
        CliArg::Help => Ok((sel, opts, ArgOutcome::ShowHelp)),
        CliArg::Version => Ok((sel, opts, ArgOutcome::ShowVersion)),
        CliArg::All => match sel {
            Selection::List(_) => Err(ArgError::AllAfterPackages),
            _ => Ok((Selection::All, opts, ArgOutcome::Continue)),
        },
        CliArg::Value(v) => match sel {
            Selection::All => Err(ArgError::PackagesAfterAll),
            Selection::Unspecified => Ok((Selection::List(seq![v@]), opts, ArgOutcome::Continue)),
            Selection::List(l) => Ok((Selection::List(l.push(v@)), opts, ArgOutcome::Continue)),
        },
        CliArg::Unexpected => Err(ArgError::Unexpected),
    }
}

impl Default for Args {
    /// No package selected, verbosity zero, neither unlink nor dry run.
    fn default() -> (r: Args)
        ensures
            r.package_spec@ == Selection::Unspecified,
            r.options == (Options { verbosity: 0, unlink: false, dry_run: false }),
    {
        Args {
            package_spec: PackageSpec::Unspecified,
            options: Options { verbosity: 0, unlink: false, dry_run: false },
        }
    }
}

impl Args {
    /// Takes in one argument. On an error nothing changes.
    pub fn apply(&mut self, arg: CliArg) -> (r: Result<ArgOutcome, ArgError>)
        ensures
            r matches Ok(o) ==> apply_spec(old(self).package_spec@, old(self).options, arg)
                == Ok::<(Selection, Options, ArgOutcome), ArgError>((final(self).package_spec@, final(self).options, o)),
            r matches Err(e) ==> apply_spec(old(self).package_spec@, old(self).options, arg) == Err::<(Selection, Options, ArgOutcome), ArgError>(e)
                && final(self).package_spec@ == old(self).package_spec@ && final(self).options == old(self).options,
    {
        match arg {
            CliArg::DryRun => {
                self.options.dry_run = true;
                Ok(ArgOutcome::Continue)
            },
            CliArg::Unlink => {
                self.options.unlink = true;
                Ok(ArgOutcome::Continue)
            },
            CliArg::Verbose => {
                if self.options.verbosity < 255 {
                    self.options.verbosity = self.options.verbosity + 1;
                }
                Ok(ArgOutcome::Continue)
            },
            CliArg::Help => Ok(ArgOutcome::ShowHelp),
            CliArg::Version => Ok(ArgOutcome::ShowVersion),
            CliArg::All => {
                if let PackageSpec::List(_) = self.package_spec {
                    return Err(ArgError::AllAfterPackages);
                }
                self.package_spec = PackageSpec::All;
                Ok(ArgOutcome::Continue)
            },
            CliArg::Value(v) => {
                match &mut self.package_spec {
                    PackageSpec::All => {
                        return Err(ArgError::PackagesAfterAll);
                    },
                    PackageSpec::List(l) => {
                        let ghost before = l@;
                        l.push(v);
                        assert(l@.map_values(|n: Vec<u8>| n@) =~= before.map_values(|n: Vec<u8>| n@).push(v@));
                        return Ok(ArgOutcome::Continue);
                    },
                    PackageSpec::Unspecified => {},
                }
                let ghost vv = v@;
                let list = vec![v];
                assert(list@.map_values(|n: Vec<u8>| n@) =~= seq![vv]);
                self.package_spec = PackageSpec::List(list);
                Ok(ArgOutcome::Continue)
            },
            CliArg::Unexpected => Err(ArgError::Unexpected),
        }
    }
}

} // verus!
